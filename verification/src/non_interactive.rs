//! Selections in non-interactive mode (`--all` / `--types`).
use vstd::prelude::*;

use crate::error::AppError;
use crate::sf_client::{component_names, full_names, type_names, xml_names, MetadataComponent, MetadataType};
use crate::strmap::{list_view, SortedMap};
use crate::text::{contains_str, string_of, trim_string, trimmed, views, wildcard_string, wildcard_text};
use crate::wildcard::{spec_supports_wildcard, supports_wildcard};

verus! {

pub open spec fn empty_entry_message() -> Seq<char> {
    "Metadata type list for --types must not contain empty entries."@
}

pub open spec fn unknown_type_message(name: Seq<char>) -> Seq<char> {
    "Unknown metadata type: "@ + name + "."@
}

/// The trimmed entries, each once, in the order first given.
pub open spec fn dedup_trimmed(ts: Seq<Seq<char>>) -> Seq<Seq<char>>
    decreases ts.len(),
{
    if ts.len() == 0 {
        Seq::empty()
    } else {
        let d = dedup_trimmed(ts.drop_last());
        let t = trimmed(ts.last());
        if d.contains(t) {
            d
        } else {
            d.push(t)
        }
    }
}

/// `--types` after normalisation: entries trimmed, none empty, repeats dropped.
pub open spec fn normalized_types(ts: Seq<Seq<char>>) -> Result<Seq<Seq<char>>, Seq<char>> {
    if exists|i: int| 0 <= i < ts.len() && trimmed(#[trigger] ts[i]).len() == 0 {
        Err(empty_entry_message())
    } else {
        Ok(dedup_trimmed(ts))
    }
}

/// The first name that is not among the known ones.
pub open spec fn first_unknown(ts: Seq<Seq<char>>, known: Seq<Seq<char>>) -> Option<Seq<char>>
    decreases ts.len(),
{
    if ts.len() == 0 {
        None
    } else if !known.contains(ts[0]) {
        Some(ts[0])
    } else {
        first_unknown(ts.drop_first(), known)
    }
}

/// The `--types` values as strings, where given.
pub open spec fn given_types(types: Option<&[String]>) -> Option<Seq<Seq<char>>> {
    match types {
        Some(t) => Some(views(t@)),
        None => None,
    }
}

/// The types asked for, before they are checked against the known ones.
pub open spec fn requested_types(
    mts: Seq<MetadataType>,
    all: bool,
    types: Option<Seq<Seq<char>>>,
) -> Result<Seq<Seq<char>>, Seq<char>> {
    if all {
        Ok(type_names(mts))
    } else {
        normalized_types(
            match types {
                Some(t) => t,
                None => Seq::empty(),
            },
        )
    }
}

/// The types to select, or the validation message.
pub open spec fn target_names(
    mts: Seq<MetadataType>,
    all: bool,
    types: Option<Seq<Seq<char>>>,
) -> Result<Seq<Seq<char>>, Seq<char>> {
    match requested_types(mts, all, types) {
        Err(m) => Err(m),
        Ok(ts) => match first_unknown(ts, type_names(mts)) {
            Some(u) => Err(unknown_type_message(u)),
            None => Ok(ts),
        },
    }
}

/// Normalizes `--types` values: trims whitespace, rejects empty entries, deduplicates.
pub fn normalize_types(types: &[String]) -> (r: Result<Vec<String>, AppError>)
    ensures
        match normalized_types(views(types@)) {
            Ok(ts) => r matches Ok(v) && views(v@) == ts,
            Err(m) => r matches Err(AppError::ValidationError { message }) && message@ == m,
        },
{
    let ghost ts = views(types@);
    let mut seen: Vec<String> = Vec::new();
    let mut i: usize = 0;
    assert(ts.take(0) =~= Seq::<Seq<char>>::empty());
    assert(views(seen@) =~= Seq::<Seq<char>>::empty());
    while i < types.len()
        invariant
            i <= types.len(),
            ts == views(types@),
            views(seen@) == dedup_trimmed(ts.take(i as int)),
            forall|k: int| 0 <= k < i ==> trimmed(#[trigger] ts[k]).len() > 0,
        decreases types.len() - i,
    {
        let t = trim_string(types[i].as_str());
        let ghost tt = ts.take(i + 1);
        assert(tt.drop_last() =~= ts.take(i as int));
        assert(tt.last() == types@[i as int]@);
        if t.unicode_len() == 0 {
            assert(trimmed(ts[i as int]).len() == 0);
            return Err(
                AppError::ValidationError {
                    message: string_of(
                        "Metadata type list for --types must not contain empty entries.",
                    ),
                },
            );
        }
        if !contains_str(&seen, t.as_str()) {
            let ghost before = views(seen@);
            let ghost tv = t@;
            seen.push(t);
            assert(views(seen@) =~= before.push(tv));
        }
        i = i + 1;
    }
    assert(ts.take(i as int) =~= ts);
    Ok(seen)
}

/// The types to select: every known type with `all`, else the normalised `types`,
/// each checked against the known types.
pub fn selection_targets(
    metadata_types: &[MetadataType],
    all: bool,
    types: Option<&[String]>,
) -> (r: Result<Vec<String>, AppError>)
    ensures
        match target_names(metadata_types@, all, given_types(types)) {
            Ok(ts) => r matches Ok(v) && views(v@) == ts,
            Err(m) => r matches Err(AppError::ValidationError { message }) && message@ == m,
        },
{
    let names = if all {
        xml_names(metadata_types)
    } else {
        let given: &[String] = match types {
            Some(t) => t,
            None => &[],
        };
        assert(Some(views(given@)) == match given_types(types) {
            Some(t) => Some(t),
            None => Some(Seq::<Seq<char>>::empty()),
        }) by {
            if types is None {
                assert(views(given@) =~= Seq::<Seq<char>>::empty());
            }
        }
        match normalize_types(given) {
            Ok(v) => v,
            Err(e) => return Err(e),
        }
    };
    let known = xml_names(metadata_types);
    let ghost ts = views(names@);
    assert(requested_types(metadata_types@, all, given_types(types)) == Ok::<Seq<Seq<char>>, Seq<char>>(ts));
    let ghost kn = views(known@);
    let mut i: usize = 0;
    assert(ts.skip(0) =~= ts);
    while i < names.len()
        invariant
            i <= names.len(),
            ts == views(names@),
            kn == views(known@),
            kn == type_names(metadata_types@),
            requested_types(metadata_types@, all, given_types(types)) == Ok::<Seq<Seq<char>>, Seq<char>>(ts),
            first_unknown(ts, kn) == first_unknown(ts.skip(i as int), kn),
        decreases names.len() - i,
    {
        assert(ts.skip(i as int)[0] == names@[i as int]@);
        assert(ts.skip(i as int).drop_first() =~= ts.skip(i + 1));
        if !contains_str(&known, names[i].as_str()) {
            let message = string_of("Unknown metadata type: ").concat(names[i].as_str()).concat(".");
            proof {
                reveal_strlit("Unknown metadata type: ");
                reveal_strlit(".");
                assert(first_unknown(ts.skip(i as int), kn) == Some(names@[i as int]@));
                assert(message@ == unknown_type_message(names@[i as int]@));
            }
            return Err(AppError::ValidationError { message });
        }
        i = i + 1;
    }
    assert(ts.skip(i as int) =~= Seq::<Seq<char>>::empty());
    Ok(names)
}

/// The first target from position `from` on that is folder-based (its components
/// have to be listed).
pub open spec fn next_folder(ts: Seq<Seq<char>>, from: int) -> Option<int>
    decreases ts.len() - from,
{
    if from < 0 || from >= ts.len() {
        None
    } else if !spec_supports_wildcard(ts[from]) {
        Some(from)
    } else {
        next_folder(ts, from + 1)
    }
}

/// The next folder-based target is a folder-based target at or after `from`.
pub proof fn lemma_next_folder(ts: Seq<Seq<char>>, from: int)
    ensures
        next_folder(ts, from) matches Some(j) ==> from <= j < ts.len() && !spec_supports_wildcard(
            ts[j],
        ),
    decreases ts.len() - from,
{
    if 0 <= from < ts.len() && spec_supports_wildcard(ts[from]) {
        lemma_next_folder(ts, from + 1);
    }
}

/// `m` with the targets from position `from` up to `to` selected with `*`.
pub open spec fn with_wildcards(
    m: Map<Seq<char>, Seq<Seq<char>>>,
    ts: Seq<Seq<char>>,
    from: int,
    to: int,
) -> Map<Seq<char>, Seq<Seq<char>>>
    decreases to - from,
{
    if to <= from {
        m
    } else {
        with_wildcards(m, ts, from, to - 1).insert(ts[to - 1], seq![wildcard_text()])
    }
}

/// What `next_folder` finds: the first folder-based target from `from` on, every
/// target before it taking `*`; when there is none, every target from `from` on takes `*`.
pub proof fn lemma_next_folder_first(ts: Seq<Seq<char>>, from: int)
    requires
        0 <= from,
    ensures
        match next_folder(ts, from) {
            Some(j) => from <= j < ts.len() && !spec_supports_wildcard(ts[j]) && forall|k: int|
                from <= k < j ==> spec_supports_wildcard(#[trigger] ts[k]),
            None => forall|k: int| from <= k < ts.len() ==> spec_supports_wildcard(#[trigger] ts[k]),
        },
    decreases ts.len() - from,
{
    if from < ts.len() && spec_supports_wildcard(ts[from]) {
        lemma_next_folder_first(ts, from + 1);
    }
}

/// Selecting targets with `*` sets each of them to `["*"]` and leaves every other key.
pub proof fn lemma_with_wildcards(
    m: Map<Seq<char>, Seq<Seq<char>>>,
    ts: Seq<Seq<char>>,
    from: int,
    to: int,
)
    requires
        0 <= from <= to <= ts.len(),
    ensures
        forall|k: int|
            from <= k < to ==> with_wildcards(m, ts, from, to).contains_key(#[trigger] ts[k])
                && with_wildcards(m, ts, from, to)[ts[k]] == seq![wildcard_text()],
        forall|key: Seq<char>|
            !ts.subrange(from, to).contains(key) ==> (#[trigger] with_wildcards(m, ts, from, to).contains_key(
                key,
            ) == m.contains_key(key) && (m.contains_key(key) ==> with_wildcards(m, ts, from, to)[key]
                == m[key])),
    decreases to - from,
{
    if to > from {
        lemma_with_wildcards(m, ts, from, to - 1);
        let prev = with_wildcards(m, ts, from, to - 1);
        assert(with_wildcards(m, ts, from, to) == prev.insert(ts[to - 1], seq![wildcard_text()]));
        assert forall|key: Seq<char>| !ts.subrange(from, to).contains(key) implies (
        #[trigger] with_wildcards(m, ts, from, to).contains_key(key) == m.contains_key(key) && (
        m.contains_key(key) ==> with_wildcards(m, ts, from, to)[key] == m[key])) by {
            assert(ts.subrange(from, to)[to - 1 - from] == ts[to - 1]);
            assert(ts[to - 1] != key);
            if ts.subrange(from, to - 1).contains(key) {
                let i = choose|i: int| 0 <= i < ts.subrange(from, to - 1).len() && #[trigger] ts.subrange(from, to - 1)[i] == key;
                assert(ts.subrange(from, to)[i] == key);
            }
        }
    }
}

/// The selection after the components of a folder-based type were listed: the type
/// with its components, unless there are none.
pub open spec fn with_components(
    m: Map<Seq<char>, Seq<Seq<char>>>,
    name: Seq<char>,
    cs: Seq<MetadataComponent>,
) -> Map<Seq<char>, Seq<Seq<char>>> {
    if component_names(cs).len() > 0 {
        m.insert(name, component_names(cs))
    } else {
        m
    }
}

/// Selects with `*` the targets from position `from` on, up to the first
/// folder-based one, whose position is returned (the number of targets if there is
/// none).
pub fn add_wildcards(selections: &mut SortedMap<Vec<String>>, targets: &Vec<String>, from: usize) -> (j: usize)
    requires
        old(selections).wf(),
        from <= targets.len(),
    ensures
        final(selections).wf(),
        match next_folder(views(targets@), from as int) {
            Some(k) => j == k && j < targets.len(),
            None => j == targets.len(),
        },
        list_view(*final(selections)) == with_wildcards(
            list_view(*old(selections)),
            views(targets@),
            from as int,
            j as int,
        ),
{
    let ghost ts = views(targets@);
    let ghost m0 = list_view(*selections);
    proof {
        lemma_next_folder(ts, from as int);
    }
    let mut i = from;
    while i < targets.len()
        invariant_except_break
            next_folder(ts, from as int) == next_folder(ts, i as int),
        invariant
            from <= i <= targets.len(),
            ts == views(targets@),
            selections.wf(),
            list_view(*selections) == with_wildcards(m0, ts, from as int, i as int),
        ensures
            match next_folder(ts, from as int) {
                Some(k) => i == k,
                None => i == targets.len(),
            },
        decreases targets.len() - i,
    {
        if !supports_wildcard(targets[i].as_str()) {
            break;
        }
        let mut star: Vec<String> = Vec::new();
        star.push(wildcard_string());
        let ghost before = list_view(*selections);
        selections.insert(targets[i].clone(), star);
        proof {
            assert(views(star@) =~= seq![wildcard_text()]);
            assert(list_view(*selections) =~= before.insert(ts[i as int], seq![wildcard_text()]));
        }
        i = i + 1;
    }
    i
}

/// Adds a folder-based type with the components fetched for it, unless there are none.
pub fn add_components(
    selections: &mut SortedMap<Vec<String>>,
    name: String,
    components: Vec<MetadataComponent>,
)
    requires
        old(selections).wf(),
    ensures
        final(selections).wf(),
        list_view(*final(selections)) == with_components(list_view(*old(selections)), name@, components@),
{
    let names = full_names(components);
    if names.len() > 0 {
        let ghost old_view = list_view(*selections);
        let ghost nv = views(names@);
        let ghost k = name@;
        selections.insert(name, names);
        assert(list_view(*selections) =~= old_view.insert(k, nv));
    }
}

} // verus!
