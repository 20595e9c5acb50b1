//! Inheriting selections from an existing `package.xml` (`--inherit`).
use vstd::prelude::*;

use vstd::utf8::{decode_utf8, valid_utf8};

use crate::error::AppError;
use crate::strmap::{list_view, SortedMap};
use crate::text::{
    clone_strings, contains_str, is_wildcard, str_eq, string_of, views, wildcard_string,
    wildcard_text,
};
use crate::wildcard::{spec_supports_wildcard, supports_wildcard};
use crate::xmlread::{
    decode_utf8_bytes, next_token, unescape_result, utf8_error_text, xml_tokenizer, xml_unescape,
    reader_sequence, xml_events, XmlToken,
};

verus! {

/// Parsed content of a package.xml used for inheriting selections.
#[derive(Debug)]
pub struct InheritedPackage {
    /// Map from metadata type name to member list.
    /// If a type has a wildcard member, the list is exactly `["*"]`.
    pub types: SortedMap<Vec<String>>,
    /// API version extracted from `<version>`, if present.
    pub version: Option<String>,
}

/// The member list is exactly `["*"]`.
pub open spec fn is_wildcard_list(ms: Seq<Seq<char>>) -> bool {
    ms.len() == 1 && ms[0] == wildcard_text()
}

/// Returns `true` if the member list represents a wildcard selection (`["*"]`).
pub fn is_wildcard_members(members: &[String]) -> (r: bool)
    ensures
        r == is_wildcard_list(views(members@)),
{
    members.len() == 1 && is_wildcard(members[0].as_str())
}

/// The member list after a `*` has absorbed every individual member.
pub open spec fn normalized_members(ms: Seq<Seq<char>>) -> Seq<Seq<char>> {
    if ms.contains(wildcard_text()) {
        seq![wildcard_text()]
    } else {
        ms
    }
}

/// Normalises the member list for a metadata type.
/// If `*` is present among the members, it wins and all individual members are discarded.
pub fn normalize_members(members: Vec<String>) -> (r: Vec<String>)
    ensures
        views(r@) == normalized_members(views(members@)),
{
    let mut i: usize = 0;
    while i < members.len()
        invariant
            i <= members.len(),
            forall|j: int| 0 <= j < i ==> members@[j]@ != wildcard_text(),
        decreases members.len() - i,
    {
        if is_wildcard(members[i].as_str()) {
            assert(views(members@)[i as int] == wildcard_text());
            let mut r: Vec<String> = Vec::new();
            r.push(wildcard_string());
            assert(views(r@) =~= seq![wildcard_text()]);
            return r;
        }
        i = i + 1;
    }
    assert(!views(members@).contains(wildcard_text()));
    members
}

/// The members of `list` to look a member up in, or none when the type has no list.
pub open spec fn org_list(comps: Map<Seq<char>, Seq<Seq<char>>>, name: Seq<char>) -> Seq<Seq<char>> {
    if comps.dom().contains(name) {
        comps[name]
    } else {
        Seq::empty()
    }
}

/// The inherited members found in the org, each once, in the order first listed.
pub open spec fn kept_members(ms: Seq<Seq<char>>, org: Seq<Seq<char>>) -> Seq<Seq<char>>
    decreases ms.len(),
{
    if ms.len() == 0 {
        Seq::empty()
    } else {
        let k = kept_members(ms.drop_last(), org);
        if org.contains(ms.last()) && !k.contains(ms.last()) {
            k.push(ms.last())
        } else {
            k
        }
    }
}

pub open spec fn warning_type_missing(name: Seq<char>) -> Seq<char> {
    "Skipping '"@ + name + "': metadata type not found in the org."@
}

pub open spec fn warning_folder_wildcard(name: Seq<char>) -> Seq<char> {
    "Skipping wildcard '*' for '"@ + name
        + "': folder-based types do not support wildcard selection."@
}

pub open spec fn warning_fetch_failed(name: Seq<char>) -> Seq<char> {
    "Skipping inherited members for '"@ + name + "': failed to fetch components from the org."@
}

pub open spec fn warning_member_missing(member: Seq<char>, name: Seq<char>) -> Seq<char> {
    "Skipping '"@ + member + "' in '"@ + name + "': component not found in the org."@
}

/// One warning per inherited member that the org does not have, in order.
pub open spec fn member_warnings(ms: Seq<Seq<char>>, org: Seq<Seq<char>>, name: Seq<char>) -> Seq<
    Seq<char>,
>
    decreases ms.len(),
{
    if ms.len() == 0 {
        Seq::empty()
    } else {
        member_warnings(ms.drop_last(), org, name) + if org.contains(ms.last()) {
            Seq::<Seq<char>>::empty()
        } else {
            seq![warning_member_missing(ms.last(), name)]
        }
    }
}

/// The selection kept for one inherited type, if any.
pub open spec fn type_selection(
    name: Seq<char>,
    ms: Seq<Seq<char>>,
    org_types: Seq<Seq<char>>,
    comps: Map<Seq<char>, Seq<Seq<char>>>,
    skipped: Seq<Seq<char>>,
) -> Option<Seq<Seq<char>>> {
    if !org_types.contains(name) {
        None
    } else if is_wildcard_list(ms) {
        if spec_supports_wildcard(name) {
            Some(seq![wildcard_text()])
        } else {
            None
        }
    } else if skipped.contains(name) {
        None
    } else {
        let k = kept_members(ms, org_list(comps, name));
        if k.len() > 0 {
            Some(k)
        } else {
            None
        }
    }
}

/// The warnings for one inherited type.
pub open spec fn type_warnings(
    name: Seq<char>,
    ms: Seq<Seq<char>>,
    org_types: Seq<Seq<char>>,
    comps: Map<Seq<char>, Seq<Seq<char>>>,
    skipped: Seq<Seq<char>>,
) -> Seq<Seq<char>> {
    if !org_types.contains(name) {
        seq![warning_type_missing(name)]
    } else if is_wildcard_list(ms) {
        if spec_supports_wildcard(name) {
            Seq::empty()
        } else {
            seq![warning_folder_wildcard(name)]
        }
    } else if skipped.contains(name) {
        seq![warning_fetch_failed(name)]
    } else {
        member_warnings(ms, org_list(comps, name), name)
    }
}

/// The selections resolved from the inherited types, taken in the order given.
pub open spec fn resolved_selections(
    names: Seq<Seq<char>>,
    lists: Seq<Seq<Seq<char>>>,
    org_types: Seq<Seq<char>>,
    comps: Map<Seq<char>, Seq<Seq<char>>>,
    skipped: Seq<Seq<char>>,
) -> Map<Seq<char>, Seq<Seq<char>>>
    decreases names.len(),
{
    if names.len() == 0 || lists.len() == 0 {
        Map::empty()
    } else {
        let m = resolved_selections(names.drop_last(), lists.drop_last(), org_types, comps, skipped);
        match type_selection(names.last(), lists.last(), org_types, comps, skipped) {
            Some(s) => m.insert(names.last(), s),
            None => m,
        }
    }
}

/// The warnings of resolution, type by type in the order given.
pub open spec fn resolved_warnings(
    names: Seq<Seq<char>>,
    lists: Seq<Seq<Seq<char>>>,
    org_types: Seq<Seq<char>>,
    comps: Map<Seq<char>, Seq<Seq<char>>>,
    skipped: Seq<Seq<char>>,
) -> Seq<Seq<char>>
    decreases names.len(),
{
    if names.len() == 0 || lists.len() == 0 {
        Seq::empty()
    } else {
        resolved_warnings(names.drop_last(), lists.drop_last(), org_types, comps, skipped)
            + type_warnings(names.last(), lists.last(), org_types, comps, skipped)
    }
}

/// The member lists of an inherited package, as text.
pub open spec fn inherited_lists(p: InheritedPackage) -> Seq<Seq<Seq<char>>> {
    p.types.values().map_values(|v: Vec<String>| views(v@))
}

fn warn_type_missing(name: &str) -> (w: String)
    ensures
        w@ == warning_type_missing(name@),
{
    string_of("Skipping '").concat(name).concat("': metadata type not found in the org.")
}

fn warn_folder_wildcard(name: &str) -> (w: String)
    ensures
        w@ == warning_folder_wildcard(name@),
{
    string_of("Skipping wildcard '*' for '").concat(name).concat(
        "': folder-based types do not support wildcard selection.",
    )
}

fn warn_fetch_failed(name: &str) -> (w: String)
    ensures
        w@ == warning_fetch_failed(name@),
{
    string_of("Skipping inherited members for '").concat(name).concat(
        "': failed to fetch components from the org.",
    )
}

fn warn_member_missing(member: &str, name: &str) -> (w: String)
    ensures
        w@ == warning_member_missing(member@, name@),
{
    string_of("Skipping '").concat(member).concat("' in '").concat(name).concat(
        "': component not found in the org.",
    )
}

/// Keeps the members the org has and warns of the others.
fn select_members(
    name: &str,
    members: &Vec<String>,
    org: &Vec<String>,
    warnings: &mut Vec<String>,
) -> (kept: Vec<String>)
    ensures
        views(kept@) == kept_members(views(members@), views(org@)),
        views(final(warnings)@) == views(old(warnings)@) + member_warnings(
            views(members@),
            views(org@),
            name@,
        ),
{
    let mut kept: Vec<String> = Vec::new();
    let mut i: usize = 0;
    let ghost ms = views(members@);
    let ghost o = views(org@);
    let ghost w0 = views(warnings@);
    assert(ms.take(0) =~= Seq::<Seq<char>>::empty());
    assert(views(kept@) =~= Seq::<Seq<char>>::empty());
    assert(views(warnings@) =~= w0 + Seq::<Seq<char>>::empty());
    while i < members.len()
        invariant
            i <= members.len(),
            ms == views(members@),
            o == views(org@),
            views(kept@) == kept_members(ms.take(i as int), o),
            views(warnings@) == w0 + member_warnings(ms.take(i as int), o, name@),
        decreases members.len() - i,
    {
        let m = members[i].as_str();
        let ghost t = ms.take(i + 1);
        assert(t.drop_last() =~= ms.take(i as int));
        assert(t.last() == m@);
        if contains_str(org, m) {
            if !contains_str(&kept, m) {
                kept.push(members[i].clone());
                assert(views(kept@) =~= kept_members(ms.take(i as int), o).push(m@));
            }
            assert(member_warnings(t, o, name@) =~= member_warnings(ms.take(i as int), o, name@)
                + Seq::<Seq<char>>::empty());
            assert(views(warnings@) =~= w0 + member_warnings(t, o, name@));
        } else {
            let w = warn_member_missing(m, name);
            let ghost wv = w@;
            let ghost before = views(warnings@);
            warnings.push(w);
            assert(views(warnings@) =~= before.push(wv));
            assert(member_warnings(t, o, name@) =~= member_warnings(ms.take(i as int), o, name@)
                + seq![wv]);
            assert(views(warnings@) =~= w0 + member_warnings(t, o, name@));
        }
        i = i + 1;
    }
    assert(ms.take(i as int) =~= ms);
    kept
}

/// Resolves the inherited package selections against the types and components
/// available in the current org.
///
/// Rules:
/// - Types not present in `org_types` are skipped with a warning.
/// - For wildcard types (`["*"]`), the selection is accepted only when the type
///   supports wildcards; folder-based types (Dashboard, Document, etc.) are skipped
///   with a warning.
/// - For individual members, those present in `org_components[type]` are kept;
///   absent members are skipped with a warning.
/// - Types in `skipped_member_types` are excluded with a warning because their
///   components could not be fetched from the org.
/// - A type whose every individual member is skipped is excluded from the result.
///
/// Returns `(selections, warnings)`.
pub fn resolve_inherited_selections(
    inherited: &InheritedPackage,
    org_types: &Vec<String>,
    org_components: &SortedMap<Vec<String>>,
    skipped_member_types: &Vec<String>,
) -> (r: (SortedMap<Vec<String>>, Vec<String>))
    requires
        inherited.types.wf(),
        org_components.wf(),
    ensures
        r.0.wf(),
        list_view(r.0) == resolved_selections(
            inherited.types.keys(),
            inherited_lists(*inherited),
            views(org_types@),
            list_view(*org_components),
            views(skipped_member_types@),
        ),
        views(r.1@) == resolved_warnings(
            inherited.types.keys(),
            inherited_lists(*inherited),
            views(org_types@),
            list_view(*org_components),
            views(skipped_member_types@),
        ),
{
    let ghost names = inherited.types.keys();
    let ghost lists = inherited_lists(*inherited);
    let ghost ot = views(org_types@);
    let ghost comps = list_view(*org_components);
    let ghost sk = views(skipped_member_types@);
    let mut selections: SortedMap<Vec<String>> = SortedMap::new();
    let mut warnings: Vec<String> = Vec::new();
    let n = inherited.types.len();
    let mut i: usize = 0;
    proof {
        assert(list_view(selections) =~= Map::empty());
        assert(names.take(0) =~= Seq::<Seq<char>>::empty());
        assert(views(warnings@) =~= Seq::<Seq<char>>::empty());
    }
    while i < n
        invariant
            n == names.len(),
            names == inherited.types.keys(),
            lists == inherited_lists(*inherited),
            lists.len() == n,
            ot == views(org_types@),
            comps == list_view(*org_components),
            sk == views(skipped_member_types@),
            org_components.wf(),
            i <= n,
            selections.wf(),
            list_view(selections) == resolved_selections(
                names.take(i as int),
                lists.take(i as int),
                ot,
                comps,
                sk,
            ),
            views(warnings@) == resolved_warnings(
                names.take(i as int),
                lists.take(i as int),
                ot,
                comps,
                sk,
            ),
        decreases n - i,
    {
        let tname = inherited.types.key_at(i);
        let members = inherited.types.value_at(i);
        let ghost name = tname@;
        let ghost ms = views(members@);
        let ghost prev_sel = list_view(selections);
        let ghost prev_warn = views(warnings@);
        proof {
            let nt = names.take(i + 1);
            let lt = lists.take(i + 1);
            assert(nt.drop_last() =~= names.take(i as int));
            assert(lt.drop_last() =~= lists.take(i as int));
            assert(nt.last() == name);
            assert(lt.last() == ms);
        }
        let mut selected: Option<Vec<String>> = None;
        if !contains_str(org_types, tname.as_str()) {
            warnings.push(warn_type_missing(tname.as_str()));
        } else if is_wildcard_members(members.as_slice()) {
            if !supports_wildcard(tname.as_str()) {
                warnings.push(warn_folder_wildcard(tname.as_str()));
            } else {
                let mut set: Vec<String> = Vec::new();
                set.push(wildcard_string());
                assert(views(set@) =~= seq![wildcard_text()]);
                selected = Some(set);
            }
        } else if contains_str(skipped_member_types, tname.as_str()) {
            warnings.push(warn_fetch_failed(tname.as_str()));
        } else {
            let empty: Vec<String> = Vec::new();
            let org_member_list = match org_components.get(tname.as_str()) {
                Some(list) => list,
                None => &empty,
            };
            proof {
                if comps.dom().contains(name) {
                    assert(org_components.has(name));
                } else {
                    assert(views(empty@) =~= Seq::<Seq<char>>::empty());
                }
            }
            let kept = select_members(tname.as_str(), members, org_member_list, &mut warnings);
            if kept.len() > 0 {
                selected = Some(kept);
            }
        }
        proof {
            assert(views(warnings@) =~= prev_warn + type_warnings(name, ms, ot, comps, sk));
        }
        match selected {
            Some(set) => {
                let ghost sv = views(set@);
                selections.insert(tname.clone(), set);
                proof {
                    assert(type_selection(name, ms, ot, comps, sk) == Some(sv));
                    assert(list_view(selections) =~= prev_sel.insert(name, sv));
                }
            },
            None => {
                assert(type_selection(name, ms, ot, comps, sk) is None);
            },
        }
        i = i + 1;
    }
    proof {
        assert(names.take(n as int) =~= names);
        assert(lists.take(n as int) =~= lists);
    }
    (selections, warnings)
}

/// Where the manifest parser stands between two tokens.
pub struct PState {
    pub in_types: bool,
    pub name: Option<Seq<char>>,
    pub members: Seq<Seq<char>>,
    pub tag: Option<Seq<char>>,
    pub depth: int,
    pub types: Map<Seq<char>, Seq<Seq<char>>>,
    pub version: Option<Seq<char>>,
}

/// The outcome of one token: go on, finished, or failed with a message.
pub enum PStep {
    Continue(PState),
    Done(PState),
    Fail(Seq<char>),
}

pub open spec fn initial_pstate() -> PState {
    PState {
        in_types: false,
        name: None,
        members: Seq::empty(),
        tag: None,
        depth: 0,
        types: Map::empty(),
        version: None,
    }
}

/// The element name in a tag, or the message of why it cannot be read.
pub open spec fn tag_text(raw: Seq<u8>) -> Result<Seq<char>, Seq<char>> {
    if valid_utf8(raw) {
        Ok(decode_utf8(raw))
    } else {
        Err("invalid UTF-8 in element name: "@ + utf8_error_text(raw))
    }
}

/// The text of a text token, decoded and unescaped, or the message of why it cannot be read.
pub open spec fn content_text(raw: Seq<u8>) -> Result<Seq<char>, Seq<char>> {
    if valid_utf8(raw) {
        unescape_result(decode_utf8(raw))
    } else {
        Err(utf8_error_text(raw))
    }
}

/// `types` after a `<types>` block for `name` with members `ms` closes: repeated
/// blocks for one type merge, and a `*` absorbs the rest.
pub open spec fn merge_block(
    types: Map<Seq<char>, Seq<Seq<char>>>,
    name: Seq<char>,
    ms: Seq<Seq<char>>,
) -> Map<Seq<char>, Seq<Seq<char>>> {
    if types.dom().contains(name) {
        types.insert(name, normalized_members(types[name] + normalized_members(ms)))
    } else {
        types.insert(name, normalized_members(ms))
    }
}

pub open spec fn end_of_file_message() -> Seq<char> {
    "unexpected end of file: document is not well-formed"@
}

/// The effect of one token on the parser.
pub open spec fn step(st: PState, tok: XmlToken) -> PStep {
    match tok {
        XmlToken::Start(b) => match tag_text(b@) {
            Err(m) => PStep::Fail(m),
            Ok(tag) => if tag == "types"@ {
                PStep::Continue(
                    PState { in_types: true, name: None, members: Seq::empty(), depth: st.depth + 1, ..st },
                )
            } else {
                PStep::Continue(PState { tag: Some(tag), depth: st.depth + 1, ..st })
            },
        },
        XmlToken::Text(b) => match content_text(b@) {
            Err(m) => PStep::Fail(m),
            Ok(t) => if st.in_types {
                if st.tag == Some("name"@) {
                    PStep::Continue(PState { name: Some(t), ..st })
                } else if st.tag == Some("members"@) {
                    PStep::Continue(PState { members: st.members.push(t), ..st })
                } else {
                    PStep::Continue(st)
                }
            } else if st.tag == Some("version"@) {
                PStep::Continue(PState { version: Some(t), ..st })
            } else {
                PStep::Continue(st)
            },
        },
        XmlToken::End(b) => match tag_text(b@) {
            Err(m) => PStep::Fail(m),
            Ok(tag) => if tag == "types"@ {
                let types = match st.name {
                    Some(n) => merge_block(st.types, n, st.members),
                    None => st.types,
                };
                PStep::Continue(
                    PState {
                        in_types: false,
                        name: None,
                        members: Seq::empty(),
                        tag: None,
                        depth: st.depth - 1,
                        types,
                        ..st
                    },
                )
            } else {
                PStep::Continue(PState { tag: None, depth: st.depth - 1, ..st })
            },
        },
        XmlToken::Eof => if st.depth != 0 {
            PStep::Fail(end_of_file_message())
        } else {
            PStep::Done(st)
        },
        XmlToken::Other => PStep::Continue(st),
        XmlToken::Error(m) => PStep::Fail(m@),
    }
}

/// Runs the parser over tokens; running out of tokens counts as the end of the document.
pub open spec fn run_tokens(st: PState, toks: Seq<XmlToken>) -> PStep
    decreases toks.len(),
{
    if toks.len() == 0 {
        step(st, XmlToken::Eof)
    } else {
        match step(st, toks[0]) {
            PStep::Continue(next) => run_tokens(next, toks.drop_first()),
            other => other,
        }
    }
}

/// `r` is what parsing the tokens `toks` of the file at `path` gives.
pub open spec fn parsed_as(r: Result<InheritedPackage, AppError>, toks: Seq<XmlToken>, path: Seq<char>) -> bool {
    match run_tokens(initial_pstate(), toks) {
        PStep::Done(st) => r matches Ok(p) && p.types.wf() && list_view(p.types) == st.types
            && opt_view(p.version) == st.version,
        PStep::Fail(m) => r matches Err(e) && e matches AppError::InheritParseError { path: p, message }
            && p@ == path && message@ == m,
        PStep::Continue(_) => false,
    }
}

pub open spec fn opt_view(o: Option<String>) -> Option<Seq<char>> {
    match o {
        Some(s) => Some(s@),
        None => None,
    }
}

/// The exec state of the manifest parser.
struct ParseState {
    in_types: bool,
    current_name: Option<String>,
    current_members: Vec<String>,
    current_tag: Option<String>,
    depth: i128,
    types: SortedMap<Vec<String>>,
    version: Option<String>,
}

impl ParseState {
    spec fn view(&self) -> PState {
        PState {
            in_types: self.in_types,
            name: opt_view(self.current_name),
            members: views(self.current_members@),
            tag: opt_view(self.current_tag),
            depth: self.depth as int,
            types: list_view(self.types),
            version: opt_view(self.version),
        }
    }
}

fn parse_error(path: &str, message: String) -> (e: AppError)
    ensures
        e matches AppError::InheritParseError { path: p, message: m } && p@ == path@ && m@
            == message@,
{
    AppError::InheritParseError { path: string_of(path), message }
}

/// Reads the element name of a tag.
fn read_tag(raw: &Vec<u8>) -> (r: Result<String, String>)
    ensures
        match r {
            Ok(s) => tag_text(raw@) == Ok::<Seq<char>, Seq<char>>(s@),
            Err(m) => tag_text(raw@) == Err::<Seq<char>, Seq<char>>(m@),
        },
{
    match decode_utf8_bytes(raw.as_slice()) {
        Ok(s) => Ok(s),
        Err(m) => Err(string_of("invalid UTF-8 in element name: ").concat(m.as_str())),
    }
}

/// Reads the content of a text token.
fn read_text(raw: &Vec<u8>) -> (r: Result<String, String>)
    ensures
        match r {
            Ok(s) => content_text(raw@) == Ok::<Seq<char>, Seq<char>>(s@),
            Err(m) => content_text(raw@) == Err::<Seq<char>, Seq<char>>(m@),
        },
{
    match decode_utf8_bytes(raw.as_slice()) {
        Ok(s) => xml_unescape(s.as_str()),
        Err(m) => Err(m),
    }
}

fn opt_is(o: &Option<String>, lit: &str) -> (r: bool)
    ensures
        r == (opt_view(*o) == Some(lit@)),
{
    match o {
        Some(s) => str_eq(s.as_str(), lit),
        None => false,
    }
}

/// Applies one token; `Ok(true)` when the document is finished.
fn apply_token(st: &mut ParseState, tok: &XmlToken, path: &str) -> (r: Result<bool, AppError>)
    requires
        old(st).types.wf(),
        -0x1_0000_0000_0000_0000 < old(st).depth < 0x1_0000_0000_0000_0000,
    ensures
        final(st).types.wf(),
        match step(old(st).view(), *tok) {
            PStep::Continue(s) => r == Ok::<bool, AppError>(false) && final(st).view() == s,
            PStep::Done(s) => r == Ok::<bool, AppError>(true) && final(st).view() == s,
            PStep::Fail(m) => r matches Err(e) && e matches AppError::InheritParseError {
                path: p,
                message,
            } && p@ == path@ && message@ == m,
        },
{
    match tok {
        XmlToken::Start(raw) => {
            st.depth = st.depth + 1;
            let tag = match read_tag(raw) {
                Ok(t) => t,
                Err(m) => return Err(parse_error(path, m)),
            };
            if str_eq(tag.as_str(), "types") {
                st.in_types = true;
                st.current_name = None;
                st.current_members = Vec::new();
                assert(views(st.current_members@) =~= Seq::<Seq<char>>::empty());
            } else {
                st.current_tag = Some(tag);
            }
            Ok(false)
        },
        XmlToken::Text(raw) => {
            let text = match read_text(raw) {
                Ok(t) => t,
                Err(m) => return Err(parse_error(path, m)),
            };
            if st.in_types {
                if opt_is(&st.current_tag, "name") {
                    st.current_name = Some(text);
                } else if opt_is(&st.current_tag, "members") {
                    let ghost before = views(st.current_members@);
                    st.current_members.push(text);
                    assert(views(st.current_members@) =~= before.push(text@));
                }
            } else if opt_is(&st.current_tag, "version") {
                st.version = Some(text);
            }
            Ok(false)
        },
        XmlToken::End(raw) => {
            st.depth = st.depth - 1;
            let tag = match read_tag(raw) {
                Ok(t) => t,
                Err(m) => return Err(parse_error(path, m)),
            };
            if str_eq(tag.as_str(), "types") {
                let taken_name = st.current_name.take();
                if let Some(name) = taken_name {
                    let mut taken: Vec<String> = Vec::new();
                    std::mem::swap(&mut taken, &mut st.current_members);
                    let members = normalize_members(taken);
                    let ghost old_types = list_view(st.types);
                    let merged = match st.types.get(name.as_str()) {
                        Some(existing) => {
                            let mut all = clone_strings(existing);
                            let mut k: usize = 0;
                            let ghost base = views(all@);
                            while k < members.len()
                                invariant
                                    k <= members.len(),
                                    views(all@) == base + views(members@).take(k as int),
                                decreases members.len() - k,
                            {
                                let ghost pre = views(all@);
                                all.push(members[k].clone());
                                assert(views(all@) =~= pre.push(members@[k as int]@));
                                assert(views(members@).take(k + 1) =~= views(members@).take(
                                    k as int,
                                ).push(members@[k as int]@));
                                assert(views(all@) =~= base + views(members@).take(k + 1));
                                k = k + 1;
                            }
                            assert(views(members@).take(k as int) =~= views(members@));
                            normalize_members(all)
                        },
                        None => members,
                    };
                    let ghost mv = views(merged@);
                    st.types.insert(name, merged);
                    proof {
                        assert(list_view(st.types) =~= old_types.insert(name@, mv));
                    }
                }
                st.current_members = Vec::new();
                st.in_types = false;
                assert(views(st.current_members@) =~= Seq::<Seq<char>>::empty());
            }
            st.current_tag = None;
            Ok(false)
        },
        XmlToken::Eof => {
            if st.depth != 0 {
                Err(parse_error(path, string_of("unexpected end of file: document is not well-formed")))
            } else {
                Ok(true)
            }
        },
        XmlToken::Other => Ok(false),
        XmlToken::Error(m) => Err(parse_error(path, m.clone())),
    }
}

/// Builds the inherited package from the reader's tokens for the file at `path`.
///
/// Tokens are taken in order until the end of the document (running out of tokens
/// counts as the end); the first unreadable token, reader error, or unclosed element
/// at the end yields `InheritParseError` for `path`.
pub fn package_from_tokens(tokens: &Vec<XmlToken>, path: &str) -> (r: Result<InheritedPackage, AppError>)
    ensures
        parsed_as(r, tokens@, path@),
{
    let mut st = ParseState {
        in_types: false,
        current_name: None,
        current_members: Vec::new(),
        current_tag: None,
        depth: 0,
        types: SortedMap::new(),
        version: None,
    };
    proof {
        assert(views(st.current_members@) =~= Seq::<Seq<char>>::empty());
        assert(list_view(st.types) =~= Map::empty());
        assert(st.view() == initial_pstate());
        assert(tokens@.skip(0) =~= tokens@);
    }
    let mut i: usize = 0;
    while i < tokens.len()
        invariant
            i <= tokens.len(),
            st.types.wf(),
            -(i as int) <= st.depth <= i as int,
            run_tokens(initial_pstate(), tokens@) == run_tokens(st.view(), tokens@.skip(i as int)),
        decreases tokens.len() - i,
    {
        let ghost before = st.view();
        let res = apply_token(&mut st, &tokens[i], path);
        proof {
            assert(tokens@.skip(i as int)[0] == tokens@[i as int]);
            assert(tokens@.skip(i as int).drop_first() =~= tokens@.skip(i + 1));
        }
        match res {
            Err(e) => return Err(e),
            Ok(true) => {
                return Ok(InheritedPackage { types: st.types, version: st.version });
            },
            Ok(false) => {},
        }
        i = i + 1;
    }
    let eof = XmlToken::Eof;
    match apply_token(&mut st, &eof, path) {
        Err(e) => Err(e),
        Ok(_) => Ok(InheritedPackage { types: st.types, version: st.version }),
    }
}

/// Parses the content of a `package.xml` file (read from `path`).
///
/// The result is what [`package_from_tokens`] gives on the events that `quick_xml`'s
/// reader delivers for `content`, up to the end of the document or its first error.
pub fn parse_xml_content(content: &str, path: &str) -> (r: Result<InheritedPackage, AppError>)
    ensures
        parsed_as(r, xml_events(content@), path@),
{
    let mut tk = xml_tokenizer(content);
    let ghost evs = xml_events(content@);
    let mut tokens: Vec<XmlToken> = Vec::new();
    loop
        invariant_except_break
            tk.read() < evs.len(),
        invariant
            tk.text() == content@,
            reader_sequence(evs),
            evs == xml_events(content@),
            tokens@ == evs.take(tk.read() as int),
            tk.read() <= evs.len(),
        ensures
            tokens@ == evs,
        decreases evs.len() - tk.read(),
    {
        let ghost k = tk.read() as int;
        let t = next_token(&mut tk);
        let last = match &t {
            XmlToken::Eof => true,
            XmlToken::Error(_) => true,
            _ => false,
        };
        let ghost prev = tokens@;
        tokens.push(t);
        assert(tokens@ =~= evs.take(k + 1));
        if last {
            assert(k == evs.len() - 1) by {
                if k < evs.len() - 1 {
                    assert(!(evs[k] is Eof) && !(evs[k] is Error));
                }
            }
            assert(tokens@ =~= evs);
            break;
        }
        assert(k + 1 < evs.len());
    }
    package_from_tokens(&tokens, path)
}

/// Running tokens after a prefix: when two continuations give the same outcome from
/// every state, so do the prefix followed by either.
proof fn lemma_same_after_prefix(st: PState, a: Seq<XmlToken>, r1: Seq<XmlToken>, r2: Seq<XmlToken>)
    requires
        forall|s: PState| #[trigger] run_tokens(s, r1) == run_tokens(s, r2),
    ensures
        run_tokens(st, a + r1) == run_tokens(st, a + r2),
    decreases a.len(),
{
    if a.len() == 0 {
        assert(a + r1 =~= r1);
        assert(a + r2 =~= r2);
    } else {
        assert((a + r1)[0] == a[0]);
        assert((a + r2)[0] == a[0]);
        assert((a + r1).drop_first() =~= a.drop_first() + r1);
        assert((a + r2).drop_first() =~= a.drop_first() + r2);
        match step(st, a[0]) {
            PStep::Continue(next) => {
                lemma_same_after_prefix(next, a.drop_first(), r1, r2);
            },
            _ => {},
        }
    }
}

/// The state after a text element `<tag>t</tag>` (other than `<types>`) read from `st`.
spec fn after_text_element(st: PState, tag: Seq<char>, t: Seq<char>) -> PState {
    let inner = PState { tag: Some(tag), depth: st.depth + 1, ..st };
    let filled = if st.in_types {
        if tag == "name"@ {
            PState { name: Some(t), ..inner }
        } else if tag == "members"@ {
            PState { members: st.members.push(t), ..inner }
        } else {
            inner
        }
    } else if tag == "version"@ {
        PState { version: Some(t), ..inner }
    } else {
        inner
    };
    PState { tag: None, depth: st.depth, ..filled }
}

/// Reading a text element `<tag>t</tag>` goes on from `after_text_element`.
proof fn lemma_text_element(
    st: PState,
    tb: Vec<u8>,
    xb: Vec<u8>,
    rest: Seq<XmlToken>,
    tag: Seq<char>,
    t: Seq<char>,
)
    requires
        tag_text(tb@) == Ok::<Seq<char>, Seq<char>>(tag),
        tag != "types"@,
        content_text(xb@) == Ok::<Seq<char>, Seq<char>>(t),
    ensures
        run_tokens(st, seq![XmlToken::Start(tb), XmlToken::Text(xb), XmlToken::End(tb)] + rest)
            == run_tokens(after_text_element(st, tag, t), rest),
{
    let toks = seq![XmlToken::Start(tb), XmlToken::Text(xb), XmlToken::End(tb)] + rest;
    let st1 = PState { tag: Some(tag), depth: st.depth + 1, ..st };
    assert(toks[0] == XmlToken::Start(tb));
    assert(step(st, toks[0]) == PStep::Continue(st1));
    let t1 = toks.drop_first();
    assert(t1 =~= seq![XmlToken::Text(xb), XmlToken::End(tb)] + rest);
    assert(run_tokens(st, toks) == run_tokens(st1, t1));
    let st2 = PState { tag: Some(tag), depth: st.depth + 1, ..after_text_element(st, tag, t) };
    assert(t1[0] == XmlToken::Text(xb));
    assert(step(st1, t1[0]) == PStep::Continue(st2));
    let t2 = t1.drop_first();
    assert(t2 =~= seq![XmlToken::End(tb)] + rest);
    assert(run_tokens(st1, t1) == run_tokens(st2, t2));
    assert(t2[0] == XmlToken::End(tb));
    assert(step(st2, t2[0]) == PStep::Continue(after_text_element(st, tag, t)));
    assert(t2.drop_first() =~= rest);
    assert(run_tokens(st2, t2) == run_tokens(after_text_element(st, tag, t), rest));
}

/// Law: in a manifest, the order of a `<name>` element and a `<members>` element
/// does not matter: whatever comes before and after them, reading the name before the
/// members gives the same outcome as reading the members before the name, so the
/// members of a `<types>` block are all its `<members>` texts wherever its `<name>`
/// stands (when both texts can be read).
pub proof fn law_name_and_members_in_either_order(
    st: PState,
    before: Seq<XmlToken>,
    after: Seq<XmlToken>,
    name_tag: Vec<u8>,
    name_text: Vec<u8>,
    members_tag: Vec<u8>,
    member_text: Vec<u8>,
)
    requires
        tag_text(name_tag@) == Ok::<Seq<char>, Seq<char>>("name"@),
        tag_text(members_tag@) == Ok::<Seq<char>, Seq<char>>("members"@),
        content_text(name_text@) is Ok,
        content_text(member_text@) is Ok,
    ensures
        run_tokens(
            st,
            before + seq![
                XmlToken::Start(name_tag),
                XmlToken::Text(name_text),
                XmlToken::End(name_tag),
                XmlToken::Start(members_tag),
                XmlToken::Text(member_text),
                XmlToken::End(members_tag),
            ] + after,
        ) == run_tokens(
            st,
            before + seq![
                XmlToken::Start(members_tag),
                XmlToken::Text(member_text),
                XmlToken::End(members_tag),
                XmlToken::Start(name_tag),
                XmlToken::Text(name_text),
                XmlToken::End(name_tag),
            ] + after,
        ),
{
    reveal_strlit("name");
    reveal_strlit("members");
    reveal_strlit("types");
    reveal_strlit("version");
    let n = content_text(name_text@)->Ok_0;
    let m = content_text(member_text@)->Ok_0;
    let ne = seq![XmlToken::Start(name_tag), XmlToken::Text(name_text), XmlToken::End(name_tag)];
    let me = seq![XmlToken::Start(members_tag), XmlToken::Text(member_text), XmlToken::End(members_tag)];
    let r1 = seq![
        XmlToken::Start(name_tag),
        XmlToken::Text(name_text),
        XmlToken::End(name_tag),
        XmlToken::Start(members_tag),
        XmlToken::Text(member_text),
        XmlToken::End(members_tag),
    ] + after;
    let r2 = seq![
        XmlToken::Start(members_tag),
        XmlToken::Text(member_text),
        XmlToken::End(members_tag),
        XmlToken::Start(name_tag),
        XmlToken::Text(name_text),
        XmlToken::End(name_tag),
    ] + after;
    assert forall|s: PState| #[trigger] run_tokens(s, r1) == run_tokens(s, r2) by {
        reveal_strlit("name");
        reveal_strlit("members");
        reveal_strlit("types");
        reveal_strlit("version");
        assert("name"@[0] != "types"@[0]);
        assert("name"@ != "types"@);
        assert(r1 =~= ne + (me + after));
        assert(r2 =~= me + (ne + after));
        lemma_text_element(s, name_tag, name_text, me + after, "name"@, n);
        lemma_text_element(after_text_element(s, "name"@, n), members_tag, member_text, after, "members"@, m);
        lemma_text_element(s, members_tag, member_text, ne + after, "members"@, m);
        lemma_text_element(after_text_element(s, "members"@, m), name_tag, name_text, after, "name"@, n);
        assert(after_text_element(after_text_element(s, "name"@, n), "members"@, m) == after_text_element(
            after_text_element(s, "members"@, m),
            "name"@,
            n,
        ));
    }
    lemma_same_after_prefix(st, before, r1, r2);
    assert(before + seq![
        XmlToken::Start(name_tag),
        XmlToken::Text(name_text),
        XmlToken::End(name_tag),
        XmlToken::Start(members_tag),
        XmlToken::Text(member_text),
        XmlToken::End(members_tag),
    ] + after =~= before + r1);
    assert(before + seq![
        XmlToken::Start(members_tag),
        XmlToken::Text(member_text),
        XmlToken::End(members_tag),
        XmlToken::Start(name_tag),
        XmlToken::Text(name_text),
        XmlToken::End(name_tag),
    ] + after =~= before + r2);
}

} // verus!
