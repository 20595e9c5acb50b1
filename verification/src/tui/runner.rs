//! The decisions of the picker's event loop: what a key press leads to, the loads of
//! components and what is done with their results, and the cleanup of placeholders
//! left by quick cursor moves. Drawing, reading the terminal and the background
//! threads stand outside the library.
use vstd::prelude::*;

use crate::error::{error_text, AppError};
use crate::inherit::opt_view;
use crate::sf_client::{component_names, full_names, MetadataComponent};
use crate::strmap::SortedMap;
use crate::text::{string_of, views};
use crate::tui::app::{
    component_list, lemma_same_content, result_load, AppState, AppView, ComponentLoadState,
    LoadView,
};
use crate::tui::event::{handle_key_event, key_handled, key_scorable, Action, KeyInput};

verus! {

broadcast use vstd::seq_lib::lemma_seq_contains_after_push;

/// A load of components to run in the background: list the components of this
/// metadata type in the org (the given one, else the default one) at this API version.
pub struct LoadRequest {
    pub metadata_type: String,
    pub target_org: Option<String>,
    pub api_version: String,
}

/// `r` asks for the components of `t` in the org `org` at version `version`.
pub open spec fn requests_load(r: LoadRequest, t: Seq<char>, org: Option<&str>, version: &str) -> bool {
    &&& r.metadata_type@ == t
    &&& opt_view(r.target_org) == match org {
        Some(o) => Some(o@),
        None => None,
    }
    &&& r.api_version@ == version@
}

/// The request for the components of `tname` in the org and at the API version the
/// picker runs with.
pub fn load_request(tname: String, target_org: Option<&str>, api_version: &str) -> (r: LoadRequest)
    ensures
        requests_load(r, tname@, target_org, api_version),
{
    let org = match target_org {
        Some(o) => Some(string_of(o)),
        None => None,
    };
    LoadRequest { metadata_type: tname, target_org: org, api_version: string_of(api_version) }
}

/// The outcome of a background load: the type, and its component list or the
/// error's message.
pub struct LoadResult {
    pub metadata_type: String,
    pub result: Result<Vec<String>, String>,
}

/// `l` is what the cache holds for type `t` after fetching gave `res`: the
/// component list, or the error's message.
pub open spec fn load_outcome(t: Seq<char>, res: Result<Vec<MetadataComponent>, AppError>, l: LoadView) -> bool {
    match res {
        Ok(cs) => l matches LoadView::Loaded(v) && component_list(t, component_names(cs@), v),
        Err(e) => l matches LoadView::Error(m) && (!(e is IoError) ==> m == error_text(e)),
    }
}

/// The loop's reaction to `a`: the value to leave the loop with, if any, and the
/// loads asked for so far.
pub open spec fn dispatched(
    a: Action,
    r: Option<Result<SortedMap<Vec<String>>, AppError>>,
    p0: Seq<String>,
    p1: Seq<String>,
) -> bool {
    match a {
        Action::Nothing => r is None && p1 == p0,
        Action::LoadComponents(t) => r is None && p1 == p0.push(t),
        Action::Confirm(m) => r == Some(Ok::<SortedMap<Vec<String>>, AppError>(m)) && p1 == p0,
        Action::NoComponentsSelected => r matches Some(Err(AppError::NoComponentsSelected)) && p1
            == p0,
        Action::Cancel => r matches Some(Err(AppError::Cancelled)) && p1 == p0,
    }
}

/// The cache without the `Loading` placeholders of the types in `names`.
pub open spec fn without_stale(cache: Map<Seq<char>, LoadView>, names: Seq<Seq<char>>) -> Map<
    Seq<char>,
    LoadView,
> {
    Map::new(
        |k: Seq<char>| cache.contains_key(k) && !(names.contains(k) && cache[k] is Loading),
        |k: Seq<char>| cache[k],
    )
}

/// The component list of `tname` from the outcome of fetching its components, or
/// the error's message.
pub fn load_result_of(tname: &str, res: Result<Vec<MetadataComponent>, AppError>) -> (r: Result<
    Vec<String>,
    String,
>)
    ensures
        load_outcome(tname@, res, result_load(r)),
{
    match res {
        Ok(components) => {
            let names = full_names(components);
            Ok(AppState::build_component_list(tname, names))
        },
        Err(e) => Err(e.to_string()),
    }
}

/// What a background load hands back once listing the components asked for by
/// `request` gave `res`.
pub fn fetch_load(request: LoadRequest, res: Result<Vec<MetadataComponent>, AppError>) -> (r: LoadResult)
    ensures
        r.metadata_type@ == request.metadata_type@,
        load_outcome(request.metadata_type@, res, result_load(r.result)),
{
    let result = load_result_of(request.metadata_type.as_str(), res);
    LoadResult { metadata_type: request.metadata_type, result }
}

/// Stores a finished load in the cache.
pub fn apply_load_result(app: &mut AppState, load_result: LoadResult)
    requires
        old(app).wf(),
    ensures
        final(app).wf(),
        final(app)@ == old(app)@.with_load(load_result.metadata_type@, result_load(load_result.result)),
{
    app.set_components(load_result.metadata_type.as_str(), load_result.result);
}

/// Stores the components of `tname` once listing them gave `res`.
pub fn load_components(app: &mut AppState, tname: &str, res: Result<Vec<MetadataComponent>, AppError>)
    requires
        old(app).wf(),
    ensures
        final(app).wf(),
        exists|l: LoadView|
            #[trigger] load_outcome(tname@, res, l) && final(app)@ == old(app)@.with_load(tname@, l),
{
    let ghost g = res;
    let result = load_result_of(tname, res);
    let ghost l = result_load(result);
    app.set_components(tname, result);
    assert(load_outcome(tname@, g, l));
}

/// Processes a single event (`None` for one that is not a key press) and returns
/// `Some(result)` if the picker should exit. When a `LoadComponents` action is
/// produced, the type name is recorded in `pending_loads` instead of being loaded.
pub fn process_event(
    app: &mut AppState,
    event: Option<KeyInput>,
    pending_loads: &mut Vec<String>,
) -> (r: Option<Result<SortedMap<Vec<String>>, AppError>>)
    requires
        old(app).wf(),
        event matches Some(key) ==> key_scorable(old(app)@, key),
    ensures
        final(app).wf(),
        old(app)@.searchable() ==> final(app)@.searchable(),
        match event {
            None => r is None && final(app)@ == old(app)@ && final(pending_loads)@ == old(
                pending_loads,
            )@,
            Some(key) => exists|a: Action|
                #[trigger] key_handled(old(app)@, key, final(app)@, a) && dispatched(
                    a,
                    r,
                    old(pending_loads)@,
                    final(pending_loads)@,
                ),
        },
{
    let key = match event {
        Some(k) => k,
        None => return None,
    };
    let action = handle_key_event(app, key);
    let ghost a = action;
    let r = match action {
        Action::Nothing => None,
        Action::LoadComponents(tname) => {
            pending_loads.push(tname);
            None
        },
        Action::Confirm(selections) => Some(Ok(selections)),
        Action::NoComponentsSelected => Some(Err(AppError::NoComponentsSelected)),
        Action::Cancel => Some(Err(AppError::Cancelled)),
    };
    assert(key_handled(old(app)@, key, app@, a));
    r
}

/// Removes cache entries that are still in `Loading` state for the given type names.
/// This prevents intermediate positions (from rapid cursor movement) from being
/// permanently stuck as "Loading", allowing them to be re-fetched when the user
/// navigates back.
pub fn cleanup_stale_loading(app: &mut AppState, pending_loads: &[String])
    requires
        old(app).wf(),
    ensures
        final(app).wf(),
        final(app)@ == (AppView {
            cache: without_stale(old(app)@.cache, views(pending_loads@)),
            ..old(app)@
        }),
        old(app)@.searchable() ==> final(app)@.searchable(),
{
    let ghost pre = app@;
    let ghost names = views(pending_loads@);
    let mut i: usize = 0;
    proof {
        assert(without_stale(pre.cache, names.take(0)) =~= pre.cache);
        assert(app@ =~= (AppView { cache: without_stale(pre.cache, names.take(0)), ..pre }));
    }
    while i < pending_loads.len()
        invariant
            i <= pending_loads.len(),
            names == views(pending_loads@),
            app.wf(),
            app@ == (AppView { cache: without_stale(pre.cache, names.take(i as int)), ..pre }),
            pre.searchable() ==> app@.searchable(),
        decreases pending_loads.len() - i,
    {
        let name = &pending_loads[i];
        let ghost before = app@;
        let stale = match app.component_cache.get(name.as_str()) {
            Some(ComponentLoadState::Loading) => true,
            _ => false,
        };
        proof {
            if app.component_cache.has(name@) {
                assert(app.component_cache.as_map().contains_key(name@));
            }
            assert(names.take(i + 1) =~= names.take(i as int).push(name@));
        }
        proof {
            assert(stale == (before.cache.contains_key(name@) && before.cache[name@] is Loading));
        }
        if stale {
            let ghost old_map = app.component_cache.as_map();
            app.component_cache.remove(name.as_str());
            proof {
                assert(app.component_cache.as_map() == old_map.remove(name@));
                assert(app@.cache =~= before.cache.remove(name@));
                assert(app@.cache =~= without_stale(pre.cache, names.take(i + 1)));
                assert(app@ =~= (AppView { cache: without_stale(pre.cache, names.take(i + 1)), ..pre }));
                lemma_same_content(before, app@);
            }
        } else {
            proof {
                assert(without_stale(pre.cache, names.take(i + 1)) =~= without_stale(
                    pre.cache,
                    names.take(i as int),
                ));
            }
        }
        i = i + 1;
    }
    proof {
        assert(names.take(i as int) =~= names);
    }
}

/// After a batch of events: where no load runs, the highlighted type's components
/// are asked for (the load to run, in the org and at the API version the picker runs
/// with, if any, is returned); while one runs, the highlighted type shows `Loading`
/// unless something is cached for it.
pub fn next_load(
    app: &mut AppState,
    loading_active: bool,
    target_org: Option<&str>,
    api_version: &str,
) -> (r: Option<LoadRequest>)
    requires
        old(app).wf(),
    ensures
        final(app).wf(),
        old(app)@.searchable() ==> final(app)@.searchable(),
        !loading_active ==> final(app)@ == old(app)@.requested().0 && match r {
            Some(q) => old(app)@.requested().1 == Some(q.metadata_type@) && requests_load(
                q,
                q.metadata_type@,
                target_org,
                api_version,
            ),
            None => old(app)@.requested().1 is None,
        },
        loading_active ==> r is None && final(app)@ == match old(app)@.highlighted() {
            Some(t) => if old(app)@.cache.contains_key(t) {
                old(app)@
            } else {
                AppView { cache: old(app)@.cache.insert(t, LoadView::Loading), ..old(app)@ }
            },
            None => old(app)@,
        },
{
    if !loading_active {
        return match app.request_components_if_needed() {
            Some(t) => {
                Some(load_request(t, target_org, api_version))
            },
            None => None,
        };
    }
    let ghost pre = app@;
    let name = match app.highlighted_type() {
        Some(t) => t.xml_name.clone(),
        None => return None,
    };
    if !app.component_cache.contains_key(name.as_str()) {
        let ghost n = name@;
        app.component_cache.insert(name, ComponentLoadState::Loading);
        proof {
            assert(app@.cache =~= pre.cache.insert(n, LoadView::Loading));
            assert(app@ =~= (AppView { cache: pre.cache.insert(n, LoadView::Loading), ..pre }));
        }
    } else {
        proof {
            assert(app.component_cache.as_map().contains_key(name@));
        }
    }
    None
}

/// Cleaning up keeps every loaded list and every load error.
pub proof fn law_cleanup_keeps_results(cache: Map<Seq<char>, LoadView>, names: Seq<Seq<char>>, k: Seq<char>)
    requires
        cache.contains_key(k),
        !(cache[k] is Loading),
    ensures
        without_stale(cache, names).contains_key(k),
        without_stale(cache, names)[k] == cache[k],
{
}

/// A type whose `Loading` placeholder was cleaned up is fetched again when it is
/// highlighted and its components are asked for.
pub proof fn law_cleanup_then_request_refetches(v: AppView, names: Seq<Seq<char>>)
    requires
        v.highlighted() is Some,
        names.contains(v.highlighted()->0),
        v.cache.contains_key(v.highlighted()->0),
        v.cache[v.highlighted()->0] is Loading,
    ensures
        (AppView { cache: without_stale(v.cache, names), ..v }).requested().1 == v.highlighted(),
{
    let t = v.highlighted()->0;
    let w = AppView { cache: without_stale(v.cache, names), ..v };
    assert(w.highlighted() == Some(t));
    assert(!w.cache.contains_key(t));
}

} // verus!
