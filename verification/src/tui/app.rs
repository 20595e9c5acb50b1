//! The picker's state: two panes (metadata types on the left, the components of the
//! highlighted type on the right), their cursors and searches, the cache of loaded
//! components, and the selections.
use vstd::prelude::*;

use crate::sf_client::{type_names, xml_names, MetadataType};
use crate::strmap::SortedMap;
use crate::text::{clone_strings, contains_str, str_eq, views, wildcard_string, wildcard_text, is_wildcard};
use crate::text::{pop_char, position_of, push_char, sort_strings, sorted_seqs, string_of, lemma_same_multiset};
use crate::wildcard::{spec_supports_wildcard, supports_wildcard};
use crate::tui::fuzzy::{
    all_matchable, matchable, fuzzy_filter, fuzzy_results, positions, ranked_positions, result_positions,
    without,
};

verus! {

broadcast use vstd::seq_lib::lemma_seq_contains_after_push;

#[derive(Debug, Clone, Copy, PartialEq, Eq, Structural)]
pub enum FocusPane {
    Left,
    Right,
}

#[derive(Debug, Clone)]
pub enum ComponentLoadState {
    Loading,
    Loaded(Vec<String>),
    Error(String),
}

/// What the cache holds for a type, as text.
pub enum LoadView {
    Loading,
    Loaded(Seq<Seq<char>>),
    Error(Seq<char>),
}

pub open spec fn load_view(s: ComponentLoadState) -> LoadView {
    match s {
        ComponentLoadState::Loading => LoadView::Loading,
        ComponentLoadState::Loaded(v) => LoadView::Loaded(views(v@)),
        ComponentLoadState::Error(m) => LoadView::Error(m@),
    }
}

/// The picker's state as mathematical values.
#[verifier::ext_equal]
pub struct AppView {
    /// The names of the metadata types, in the order given.
    pub types: Seq<Seq<char>>,
    /// Positions in `types` shown in the left pane, in display order.
    pub filtered: Seq<usize>,
    pub left_cursor: usize,
    pub query: Seq<char>,
    pub cache: Map<Seq<char>, LoadView>,
    pub right_cursor: usize,
    pub right_query: Seq<char>,
    /// Positions in the highlighted type's component list shown in the right pane.
    pub right_filtered: Seq<usize>,
    /// The selected components of each type.
    pub selections: Map<Seq<char>, Set<Seq<char>>>,
    pub searching: Option<FocusPane>,
    pub focus: FocusPane,
    pub should_quit: bool,
    pub cancelled: bool,
}

/// A fresh picker over `types`: every type listed, cursors at the top, nothing
/// searched, loaded or selected, focus on the left pane.
pub open spec fn initial_view(types: Seq<MetadataType>) -> AppView {
    AppView {
        types: type_names(types),
        filtered: index_seq(types.len()),
        left_cursor: 0,
        query: Seq::empty(),
        cache: Map::empty(),
        right_cursor: 0,
        right_query: Seq::empty(),
        right_filtered: Seq::empty(),
        selections: Map::empty(),
        searching: None,
        focus: FocusPane::Left,
        should_quit: false,
        cancelled: false,
    }
}

/// `0, 1, .., n - 1`.
pub open spec fn index_seq(n: nat) -> Seq<usize> {
    Seq::new(n, |i: int| i as usize)
}

/// The position after `c` in a list of `n`, wrapping to the top.
pub open spec fn next_index(c: usize, n: usize) -> usize {
    ((c + 1) % (n as int)) as usize
}

/// The position before `c` in a list of `n`, wrapping to the bottom.
pub open spec fn prev_index(c: usize, n: usize) -> usize {
    if c == 0 {
        (n - 1) as usize
    } else {
        (c - 1) as usize
    }
}

/// Loaded component names fit the matcher.
pub open spec fn load_matchable(l: LoadView) -> bool {
    l matches LoadView::Loaded(v) ==> all_matchable(v)
}

/// Where a set holds the wildcard member, it holds nothing else.
pub open spec fn wildcard_alone(s: Set<Seq<char>>) -> bool {
    s.contains(wildcard_text()) ==> s == set![wildcard_text()]
}

/// The members after toggling `c`: a selected member is deselected; selecting the
/// wildcard drops every other member; selecting another member drops the wildcard.
pub open spec fn toggle_set(s: Set<Seq<char>>, c: Seq<char>) -> Set<Seq<char>> {
    if s.contains(c) {
        s.remove(c)
    } else if c == wildcard_text() {
        set![wildcard_text()]
    } else {
        s.remove(wildcard_text()).insert(c)
    }
}

/// The position of the first `x` in `s`.
pub open spec fn first_index(s: Seq<Seq<char>>, x: Seq<char>) -> int {
    choose|i: int| 0 <= i < s.len() && s[i] == x && forall|j: int| 0 <= j < i ==> s[j] != x
}

/// Where the first `x` in `s` stands at `i`, `first_index` names it.
pub proof fn lemma_first_index(s: Seq<Seq<char>>, x: Seq<char>, i: int)
    requires
        0 <= i < s.len(),
        s[i] == x,
        forall|j: int| 0 <= j < i ==> s[j] != x,
    ensures
        first_index(s, x) == i,
{
    let k = first_index(s, x);
    assert(0 <= k < s.len() && s[k] == x && forall|j: int| 0 <= j < k ==> s[j] != x);
    if k < i {
        assert(s[k] != x);
    }
    if i < k {
        assert(s[i] != x);
    }
}

/// The right pane's order for components `comps` whose filtered positions are `idx`:
/// the wildcard member, where the list has one, first, then the rest.
pub open spec fn right_order(comps: Seq<Seq<char>>, idx: Seq<usize>) -> Seq<usize> {
    if comps.contains(wildcard_text()) {
        let w = first_index(comps, wildcard_text()) as usize;
        seq![w] + without(idx, w)
    } else {
        idx
    }
}

/// `s` without its last character, where it has one.
pub open spec fn without_last(s: Seq<char>) -> Seq<char> {
    if s.len() == 0 {
        s
    } else {
        s.drop_last()
    }
}

/// The cache entry for a load's outcome.
pub open spec fn result_load(r: Result<Vec<String>, String>) -> LoadView {
    match r {
        Ok(v) => LoadView::Loaded(views(v@)),
        Err(m) => LoadView::Error(m@),
    }
}

/// The component list of a type: the names sorted, with the wildcard member first
/// where the type supports it.
pub open spec fn component_list(tname: Seq<char>, names: Seq<Seq<char>>, r: Seq<Seq<char>>) -> bool {
    let rest = if spec_supports_wildcard(tname) {
        r.skip(1)
    } else {
        r
    };
    &&& spec_supports_wildcard(tname) ==> r.len() > 0 && r[0] == wildcard_text()
    &&& sorted_seqs(rest)
    &&& rest.to_multiset() == names.to_multiset()
}

impl AppView {
    /// `post` is this state with the left pane filtered by its query: the types the
    /// query keeps, ranked, the cursor at the top, and the right pane's search cleared.
    pub open spec fn left_filtered_to(self, post: AppView) -> bool {
        &&& ranked_positions(self.query, self.types, post.filtered)
        &&& post == (AppView { filtered: post.filtered, left_cursor: 0, ..self }).cleared_right()
    }

    /// `post` is this state with the right pane filtered by its query (the wildcard
    /// member always kept, first), cursor at the top; with nothing loaded, an empty list.
    pub open spec fn right_filtered_to(self, post: AppView) -> bool {
        match self.shown() {
            None => post == (AppView { right_filtered: Seq::empty(), right_cursor: 0, ..self }),
            Some(comps) => exists|idx: Seq<usize>|
                #[trigger] ranked_positions(self.right_query, comps, idx) && post == (AppView {
                    right_filtered: right_order(comps, idx),
                    right_cursor: 0,
                    ..self
                }),
        }
    }

    /// Entering search mode in the focused pane: the left pane always, the right one
    /// only where its components are loaded; the query kept is applied again.
    pub open spec fn search_started_to(self, post: AppView) -> bool {
        match self.focus {
            FocusPane::Left => (AppView { searching: Some(FocusPane::Left), ..self }).left_filtered_to(
                post,
            ),
            FocusPane::Right => if self.shown() is Some {
                (AppView { searching: Some(FocusPane::Right), ..self }).right_filtered_to(post)
            } else {
                post == self
            },
        }
    }

    /// The query of the pane being searched changed to `f` of itself and applied
    /// again; outside search mode nothing changes.
    pub open spec fn query_edited_to(self, post: AppView, left: Seq<char>, right: Seq<char>) -> bool {
        match self.searching {
            Some(FocusPane::Left) => (AppView { query: left, ..self }).left_filtered_to(post),
            Some(FocusPane::Right) => (AppView { right_query: right, ..self }).right_filtered_to(
                post,
            ),
            None => post == self,
        }
    }

    /// The types with at least one member selected.
    pub open spec fn confirmed_types(self) -> Set<Seq<char>> {
        Set::new(
            |t: Seq<char>| self.selections.contains_key(t) && self.selections[t] != Set::<Seq<char>>::empty(),
        )
    }

    /// `m` is the confirmed selection: each type with a member selected, mapped to
    /// its members sorted.
    pub open spec fn confirmed_map(self, m: SortedMap<Vec<String>>) -> bool {
        &&& m.wf()
        &&& m.as_map().dom() == self.confirmed_types()
        &&& forall|t: Seq<char>|
            #[trigger] m.as_map().contains_key(t) ==> {
                let members = views(m.as_map()[t]@);
                &&& sorted_seqs(members)
                &&& members.no_duplicates()
                &&& members.to_set() == self.selections[t]
            }
    }

    /// `r` is what confirming gives: nothing where no member is selected, else the
    /// confirmed selection.
    pub open spec fn confirmed_as(self, r: Option<SortedMap<Vec<String>>>) -> bool {
        match r {
            None => self.confirmed_types() == Set::<Seq<char>>::empty(),
            Some(m) => self.confirmed_types() != Set::<Seq<char>>::empty() && self.confirmed_map(m),
        }
    }

    /// The cache holds `l` for type `t`; where `t` is highlighted, the right pane's
    /// list is rebuilt.
    pub open spec fn with_load(self, t: Seq<char>, l: LoadView) -> AppView {
        let v = AppView { cache: self.cache.insert(t, l), ..self };
        if v.highlighted() == Some(t) {
            v.rebuilt_right()
        } else {
            v
        }
    }

    /// Components of `t` have to be fetched: nothing, or only a `Loading`
    /// placeholder, is cached for it.
    pub open spec fn needs_load(self, t: Seq<char>) -> bool {
        !(self.cache.contains_key(t) && (self.cache[t] is Loaded || self.cache[t] is Error))
    }

    /// The state after asking for the highlighted type's components, and the type to
    /// fetch, if any: it is marked `Loading`.
    pub open spec fn requested(self) -> (AppView, Option<Seq<char>>) {
        match self.highlighted() {
            Some(t) => if self.needs_load(t) {
                (AppView { cache: self.cache.insert(t, LoadView::Loading), ..self }, Some(t))
            } else {
                (self, None)
            },
            None => (self, None),
        }
    }

    /// The focus moved to the other pane.
    pub open spec fn switched(self) -> AppView {
        AppView {
            focus: match self.focus {
                FocusPane::Left => FocusPane::Right,
                FocusPane::Right => FocusPane::Left,
            },
            ..self
        }
    }

    /// The members selected of type `t` (none where it has no entry).
    pub open spec fn selected_of(self, t: Seq<char>) -> Set<Seq<char>> {
        if self.selections.contains_key(t) {
            self.selections[t]
        } else {
            Set::empty()
        }
    }

    /// The component under the right cursor.
    pub open spec fn component_under_cursor(self) -> Option<Seq<char>> {
        match self.shown() {
            Some(comps) => if self.right_cursor < self.right_filtered.len()
                && self.right_filtered[self.right_cursor as int] < comps.len() {
                Some(comps[self.right_filtered[self.right_cursor as int] as int])
            } else {
                None
            },
            None => None,
        }
    }

    /// The selection of the highlighted type with the component under the right
    /// cursor toggled.
    pub open spec fn toggled(self) -> AppView {
        match (self.highlighted(), self.component_under_cursor()) {
            (Some(t), Some(c)) => AppView {
                selections: self.selections.insert(t, toggle_set(self.selected_of(t), c)),
                ..self
            },
            _ => self,
        }
    }

    /// The name of the type under the left cursor.
    pub open spec fn highlighted(self) -> Option<Seq<char>> {
        if self.left_cursor < self.filtered.len() && self.filtered[self.left_cursor as int]
            < self.types.len() {
            Some(self.types[self.filtered[self.left_cursor as int] as int])
        } else {
            None
        }
    }

    /// The loaded components of type `name`, if they are loaded.
    pub open spec fn loaded(self, name: Seq<char>) -> Option<Seq<Seq<char>>> {
        if self.cache.contains_key(name) {
            match self.cache[name] {
                LoadView::Loaded(v) => Some(v),
                _ => None,
            }
        } else {
            None
        }
    }

    /// The components listed in the right pane: those of the highlighted type, if loaded.
    pub open spec fn shown(self) -> Option<Seq<Seq<char>>> {
        match self.highlighted() {
            Some(n) => self.loaded(n),
            None => None,
        }
    }

    pub open spec fn shown_len(self) -> nat {
        match self.shown() {
            Some(v) => v.len(),
            None => 0,
        }
    }

    /// The right pane lists every shown component, cursor at the top.
    pub open spec fn rebuilt_right(self) -> AppView {
        AppView { right_filtered: index_seq(self.shown_len()), right_cursor: 0, ..self }
    }

    /// The right pane's search is dropped and its list rebuilt.
    pub open spec fn cleared_right(self) -> AppView {
        AppView {
            right_query: Seq::empty(),
            searching: if self.searching == Some(FocusPane::Right) {
                None
            } else {
                self.searching
            },
            ..self.rebuilt_right()
        }
    }

    /// The cursor of the focused pane one up, wrapping; moving in the left pane
    /// clears the right pane's search.
    pub open spec fn cursor_up(self) -> AppView {
        match self.focus {
            FocusPane::Left => if self.filtered.len() > 0 {
                AppView {
                    left_cursor: prev_index(self.left_cursor, self.filtered.len() as usize),
                    ..self
                }.cleared_right()
            } else {
                self
            },
            FocusPane::Right => if self.right_filtered.len() > 0 {
                AppView {
                    right_cursor: prev_index(self.right_cursor, self.right_filtered.len() as usize),
                    ..self
                }
            } else {
                self
            },
        }
    }

    /// The cursor of the focused pane one down, wrapping; moving in the left pane
    /// clears the right pane's search.
    pub open spec fn cursor_down(self) -> AppView {
        match self.focus {
            FocusPane::Left => if self.filtered.len() > 0 {
                AppView {
                    left_cursor: next_index(self.left_cursor, self.filtered.len() as usize),
                    ..self
                }.cleared_right()
            } else {
                self
            },
            FocusPane::Right => if self.right_filtered.len() > 0 {
                AppView {
                    right_cursor: next_index(self.right_cursor, self.right_filtered.len() as usize),
                    ..self
                }
            } else {
                self
            },
        }
    }

    /// Scoring the query `q` against the types stays within the matcher's limit (an
    /// empty query scores nothing).
    pub open spec fn left_scorable(self, q: Seq<char>) -> bool {
        q.len() > 0 ==> all_matchable(self.types)
    }

    /// Scoring the query `q` against the components shown stays within the matcher's
    /// limit.
    pub open spec fn right_scorable(self, q: Seq<char>) -> bool {
        q.len() > 0 ==> match self.shown() {
            Some(c) => all_matchable(c),
            None => true,
        }
    }

    /// Editing the search of the pane searched to the queries `left` and `right`
    /// stays within the matcher's limit.
    pub open spec fn edit_scorable(self, left: Seq<char>, right: Seq<char>) -> bool {
        match self.searching {
            Some(FocusPane::Left) => self.left_scorable(left),
            Some(FocusPane::Right) => self.right_scorable(right),
            None => true,
        }
    }

    /// Every name that a search can score fits the matcher.
    pub open spec fn searchable(self) -> bool {
        &&& all_matchable(self.types)
        &&& forall|n: Seq<char>|
            #[trigger] self.cache.contains_key(n) ==> load_matchable(self.cache[n])
    }

    /// Indices shown in the left pane are positions of types.
    pub open spec fn valid(self) -> bool {
        forall|k: int| 0 <= k < self.filtered.len() ==> #[trigger] self.filtered[k] < self.types.len()
    }

    /// In every selection, the wildcard member stands alone.
    pub open spec fn selections_exclusive(self) -> bool {
        forall|n: Seq<char>|
            #[trigger] self.selections.contains_key(n) ==> wildcard_alone(self.selections[n])
    }
}

pub struct AppState {
    // Left pane
    pub metadata_types: Vec<MetadataType>,
    pub filtered_indices: Vec<usize>,
    pub left_cursor: usize,
    pub search_query: String,
    // Right pane
    pub component_cache: SortedMap<ComponentLoadState>,
    pub right_cursor: usize,
    pub right_search_query: String,
    pub right_filtered_indices: Vec<usize>,
    pub selections: SortedMap<Vec<String>>,
    // Common
    pub searching_pane: Option<FocusPane>,
    pub focus: FocusPane,
    pub should_quit: bool,
    pub cancelled: bool,
}

impl View for AppState {
    type V = AppView;

    open spec fn view(&self) -> AppView {
        AppView {
            types: type_names(self.metadata_types@),
            filtered: self.filtered_indices@,
            left_cursor: self.left_cursor,
            query: self.search_query@,
            cache: self.component_cache.as_map().map_values(
                |s: ComponentLoadState| load_view(s),
            ),
            right_cursor: self.right_cursor,
            right_query: self.right_search_query@,
            right_filtered: self.right_filtered_indices@,
            selections: self.selections.as_map().map_values(|v: Vec<String>| views(v@).to_set()),
            searching: self.searching_pane,
            focus: self.focus,
            should_quit: self.should_quit,
            cancelled: self.cancelled,
        }
    }
}

impl AppState {
    /// The maps are well formed, each selection list holds a member once, and the
    /// view is valid.
    pub open spec fn wf(&self) -> bool {
        &&& self.component_cache.wf()
        &&& self.selections.wf()
        &&& forall|k: Seq<char>|
            #[trigger] self.selections.as_map().contains_key(k) ==> views(
                self.selections.as_map()[k]@,
            ).no_duplicates()
        &&& self@.valid()
    }

    pub fn new(metadata_types: Vec<MetadataType>) -> (r: Self)
        ensures
            r.wf(),
            r@ == initial_view(metadata_types@),
    {
        let mut filtered_indices: Vec<usize> = Vec::new();
        let mut i: usize = 0;
        while i < metadata_types.len()
            invariant
                i <= metadata_types.len(),
                filtered_indices@ == index_seq(i as nat),
            decreases metadata_types.len() - i,
        {
            filtered_indices.push(i);
            assert(filtered_indices@ =~= index_seq((i + 1) as nat));
            i = i + 1;
        }
        let r = AppState {
            metadata_types,
            filtered_indices,
            left_cursor: 0,
            search_query: String::new(),
            component_cache: SortedMap::new(),
            right_cursor: 0,
            right_search_query: String::new(),
            right_filtered_indices: Vec::new(),
            selections: SortedMap::new(),
            searching_pane: None,
            focus: FocusPane::Left,
            should_quit: false,
            cancelled: false,
        };
        proof {
            assert(r@.cache =~= Map::<Seq<char>, LoadView>::empty());
            assert(r@.selections =~= Map::<Seq<char>, Set<Seq<char>>>::empty());
        }
        r
    }

    /// A picker over `metadata_types` with the members of `initial` selected.
    pub fn with_selections(metadata_types: Vec<MetadataType>, initial: &SortedMap<Vec<String>>) -> (r: Self)
        requires
            initial.wf(),
        ensures
            r.wf(),
            r@ == (AppView {
                selections: initial.as_map().map_values(|v: Vec<String>| views(v@).to_set()),
                ..initial_view(metadata_types@)
            }),
    {
        let mut r = AppState::new(metadata_types);
        let ghost start = r@;
        let mut i: usize = 0;
        while i < initial.len()
            invariant
                i <= initial.keys().len(),
                initial.wf(),
                r.wf(),
                r@ == (AppView { selections: r@.selections, ..start }),
                forall|t: Seq<char>|
                    #[trigger] r@.selections.contains_key(t) <==> (exists|j: int|
                        0 <= j < i && #[trigger] initial.keys()[j] == t),
                forall|t: Seq<char>|
                    #[trigger] r@.selections.contains_key(t) ==> r@.selections[t] == views(
                        initial.as_map()[t]@,
                    ).to_set(),
            decreases initial.keys().len() - i,
        {
            let key = initial.key_at(i);
            let members = initial.value_at(i);
            proof {
                initial.lemma_index_unique(i as int);
            }
            let unique = dedup_strings(members);
            let ghost old_map = r.selections.as_map();
            let ghost pre = r@;
            r.selections.insert(key.clone(), unique);
            proof {
                assert forall|k: Seq<char>| #[trigger] r.selections.as_map().contains_key(k) implies views(
                    r.selections.as_map()[k]@,
                ).no_duplicates() by {
                    if k != key@ {
                        assert(old_map.contains_key(k));
                    }
                }
                assert(r@.selections =~= pre.selections.insert(key@, views(unique@).to_set()));
                assert(r@ =~= (AppView { selections: r@.selections, ..start }));
                assert(r@.filtered == pre.filtered && r@.types == pre.types);
                assert(r@.valid());
                assert forall|t: Seq<char>|
                    #[trigger] r@.selections.contains_key(t) <==> (exists|j: int|
                        0 <= j < i + 1 && #[trigger] initial.keys()[j] == t) by {
                    if t == key@ {
                        assert(initial.keys()[i as int] == t);
                    } else if exists|j: int| 0 <= j < i + 1 && #[trigger] initial.keys()[j] == t {
                        let j = choose|j: int| 0 <= j < i + 1 && #[trigger] initial.keys()[j] == t;
                        assert(j != i);
                    }
                }
            }
            i = i + 1;
        }
        proof {
            let target = initial.as_map().map_values(|v: Vec<String>| views(v@).to_set());
            assert forall|t: Seq<char>| #[trigger] r@.selections.contains_key(t) <==> target.contains_key(t) by {
                if target.contains_key(t) {
                    assert(initial.has(t));
                    let j = choose|j: int| 0 <= j < initial.keys().len() && initial.keys()[j] == t;
                    assert(initial.keys()[j] == t);
                }
                if r@.selections.contains_key(t) {
                    let j = choose|j: int| 0 <= j < i && #[trigger] initial.keys()[j] == t;
                    assert(initial.has(t));
                }
            }
            assert(r@.selections =~= target);
        }
        r
    }

    /// Returns the metadata type at the current left cursor position.
    pub fn highlighted_type(&self) -> (r: Option<&MetadataType>)
        requires
            self.wf(),
        ensures
            match r {
                Some(t) => self@.highlighted() == Some(t.xml_name@),
                None => self@.highlighted() is None,
            },
    {
        if self.left_cursor < self.filtered_indices.len() {
            let i = self.filtered_indices[self.left_cursor];
            Some(&self.metadata_types[i])
        } else {
            None
        }
    }

    /// Returns the list of components for the currently highlighted type (if loaded).
    pub fn highlighted_components(&self) -> (r: Option<&Vec<String>>)
        requires
            self.wf(),
        ensures
            match r {
                Some(v) => self@.shown() == Some(views(v@)),
                None => self@.shown() is None,
            },
    {
        let ht = match self.highlighted_type() {
            Some(t) => t,
            None => return None,
        };
        match self.component_cache.get(ht.xml_name.as_str()) {
            Some(ComponentLoadState::Loaded(components)) => Some(components),
            _ => None,
        }
    }

    // -- Cursor movement --

    pub fn move_cursor_up(&mut self)
        requires
            old(self).wf(),
        ensures
            final(self).wf(),
            final(self)@ == old(self)@.cursor_up(),
    {
        match self.focus {
            FocusPane::Left => {
                if self.filtered_indices.len() > 0 {
                    if self.left_cursor == 0 {
                        self.left_cursor = self.filtered_indices.len() - 1;
                    } else {
                        self.left_cursor = self.left_cursor - 1;
                    }
                    self.clear_right_search();
                }
            },
            FocusPane::Right => {
                if self.right_filtered_indices.len() > 0 {
                    if self.right_cursor == 0 {
                        self.right_cursor = self.right_filtered_indices.len() - 1;
                    } else {
                        self.right_cursor = self.right_cursor - 1;
                    }
                }
            },
        }
    }

    pub fn move_cursor_down(&mut self)
        requires
            old(self).wf(),
        ensures
            final(self).wf(),
            final(self)@ == old(self)@.cursor_down(),
    {
        match self.focus {
            FocusPane::Left => {
                let n = self.filtered_indices.len();
                if n > 0 {
                    self.left_cursor = (self.left_cursor % n + 1) % n;
                    proof {
                        lemma_wrap_next(old(self).left_cursor, n);
                    }
                    self.clear_right_search();
                }
            },
            FocusPane::Right => {
                let n = self.right_filtered_indices.len();
                if n > 0 {
                    self.right_cursor = (self.right_cursor % n + 1) % n;
                    proof {
                        lemma_wrap_next(old(self).right_cursor, n);
                    }
                }
            },
        }
    }

    // -- Focus --

    pub fn switch_focus(&mut self)
        requires
            old(self).wf(),
        ensures
            final(self).wf(),
            final(self)@ == old(self)@.switched(),
    {
        self.focus = match self.focus {
            FocusPane::Left => FocusPane::Right,
            FocusPane::Right => FocusPane::Left,
        };
    }

    pub fn focus_left(&mut self)
        requires
            old(self).wf(),
        ensures
            final(self).wf(),
            final(self)@ == (AppView { focus: FocusPane::Left, ..old(self)@ }),
    {
        self.focus = FocusPane::Left;
    }

    pub fn focus_right(&mut self)
        requires
            old(self).wf(),
        ensures
            final(self).wf(),
            final(self)@ == (AppView { focus: FocusPane::Right, ..old(self)@ }),
    {
        self.focus = FocusPane::Right;
    }

    // -- Selection --

    /// Toggles the selection of the component at the current right cursor position.
    /// Implements wildcard exclusion: selecting `*` clears individual selections,
    /// and selecting an individual component clears `*`.
    pub fn toggle_selection(&mut self)
        requires
            old(self).wf(),
        ensures
            final(self).wf(),
            final(self)@ == old(self)@.toggled(),
    {
        let tname = match self.highlighted_type() {
            Some(t) => t.xml_name.clone(),
            None => return ,
        };
        if self.right_cursor >= self.right_filtered_indices.len() {
            return ;
        }
        let actual_index = self.right_filtered_indices[self.right_cursor];
        let component_name = match self.highlighted_components() {
            Some(components) => {
                if actual_index < components.len() {
                    components[actual_index].clone()
                } else {
                    return ;
                }
            },
            None => return ,
        };
        let ghost t = tname@;
        let current: Vec<String> = match self.selections.get(tname.as_str()) {
            Some(v) => clone_strings(v),
            None => Vec::new(),
        };
        proof {
            if self.selections.has(t) {
                assert(self.selections.as_map().contains_key(t));
                assert(self@.selections.contains_key(t));
            } else {
                assert(!self@.selections.contains_key(t));
                assert(views(current@) =~= Seq::<Seq<char>>::empty());
                assert(views(current@).to_set() =~= Set::<Seq<char>>::empty());
            }
            assert(views(current@).to_set() == self@.selected_of(t));
        }
        let next = toggled_members(current, component_name);
        let ghost nv = next;
        let ghost old_map = self.selections.as_map();
        self.selections.insert(tname, next);
        proof {
            assert(self.selections.as_map() == old_map.insert(t, nv));
            assert(self@.selections =~= old(self)@.selections.insert(t, views(nv@).to_set()));
            assert(self@.cache == old(self)@.cache);
        }
    }

    // -- Search --

    pub fn apply_fuzzy_filter(&mut self)
        requires
            old(self).wf(),
            old(self)@.left_scorable(old(self)@.query),
        ensures
            final(self).wf(),
            old(self)@.searchable() ==> final(self)@.searchable(),
            old(self)@.left_filtered_to(final(self)@),
    {
        let names = xml_names(&self.metadata_types);
        let results = fuzzy_filter(self.search_query.as_str(), &names);
        let filtered = result_positions(&results, None);
        proof {
            let ghost types = self@.types;
            assert(fuzzy_results(self@.query, types, results@));
            assert forall|k: int| 0 <= k < filtered@.len() implies #[trigger] filtered@[k] < types.len() by {
                assert(filtered@[k] == results@[k].0);
            }
        }
        let ghost pre = self@;
        self.filtered_indices = filtered;
        self.left_cursor = 0;
        proof {
            assert(self@ =~= (AppView { filtered: filtered@, left_cursor: 0, ..pre }));
        }
        self.clear_right_search();
        proof {
            assert(ranked_positions(pre.query, pre.types, self@.filtered));
        }
    }

    pub fn apply_right_fuzzy_filter(&mut self)
        requires
            old(self).wf(),
            old(self)@.right_scorable(old(self)@.right_query),
        ensures
            final(self).wf(),
            old(self)@.searchable() ==> final(self)@.searchable(),
            old(self)@.right_filtered_to(final(self)@),
    {
        let ghost pre = self@;
        let ghost mut idx: Seq<usize> = Seq::empty();
        let indices: Vec<usize> = match self.highlighted_components() {
            Some(components) => {
                let results = fuzzy_filter(self.right_search_query.as_str(), components);
                let ghost comps = views(components@);
                proof {
                    idx = positions(results@);
                    assert(fuzzy_results(pre.right_query, comps, results@));
                    assert(ranked_positions(pre.right_query, comps, idx));
                }
                let wildcard_idx = position_of(components, "*");
                proof {
                    reveal_strlit("*");
                    assert("*"@ =~= wildcard_text());
                }
                match wildcard_idx {
                    Some(w) => {
                        let rest = result_positions(&results, Some(w));
                        let mut indices: Vec<usize> = Vec::new();
                        indices.push(w);
                        let mut k: usize = 0;
                        while k < rest.len()
                            invariant
                                k <= rest.len(),
                                indices@ == seq![w] + rest@.take(k as int),
                            decreases rest.len() - k,
                        {
                            indices.push(rest[k]);
                            assert(rest@.take(k + 1) =~= rest@.take(k as int).push(rest@[k as int]));
                            assert(indices@ =~= seq![w] + rest@.take(k + 1));
                            k = k + 1;
                        }
                        proof {
                            assert(rest@.take(k as int) =~= rest@);
                            assert(comps[w as int] == wildcard_text());
                            assert forall|j: int| 0 <= j < w implies comps[j] != wildcard_text() by {
                                assert(comps[j] == components@[j]@);
                            }
                            lemma_first_index(comps, wildcard_text(), w as int);
                            assert(comps.contains(wildcard_text()));
                            assert(indices@ == right_order(comps, positions(results@)));
                        }
                        indices
                    },
                    None => {
                        let indices = result_positions(&results, None);
                        proof {
                            assert(!comps.contains(wildcard_text()));
                            assert(indices@ == right_order(comps, idx));
                        }
                        indices
                    },
                }
            },
            None => Vec::new(),
        };
        self.right_filtered_indices = indices;
        self.right_cursor = 0;
        proof {
            match pre.shown() {
                None => {
                    assert(self@ =~= (AppView { right_filtered: Seq::empty(), right_cursor: 0, ..pre }));
                },
                Some(comps) => {
                    assert(self@ =~= (AppView {
                        right_filtered: right_order(comps, idx),
                        right_cursor: 0,
                        ..pre
                    }));
                    assert(ranked_positions(pre.right_query, comps, idx));
                },
            }
        }
    }

    pub fn start_search(&mut self)
        requires
            old(self).wf(),
            match old(self)@.focus {
                FocusPane::Left => old(self)@.left_scorable(old(self)@.query),
                FocusPane::Right => old(self)@.right_scorable(old(self)@.right_query),
            },
        ensures
            final(self).wf(),
            old(self)@.searchable() ==> final(self)@.searchable(),
            old(self)@.search_started_to(final(self)@),
    {
        match self.focus {
            FocusPane::Left => {
                self.searching_pane = Some(FocusPane::Left);
                proof {
                    lemma_same_content(old(self)@, self@);
                }
                self.apply_fuzzy_filter();
            },
            FocusPane::Right => {
                if self.can_search_right() {
                    self.searching_pane = Some(FocusPane::Right);
                    proof {
                        lemma_same_content(old(self)@, self@);
                    }
                    self.apply_right_fuzzy_filter();
                }
            },
        }
    }

    pub fn update_search(&mut self, ch: char)
        requires
            old(self).wf(),
            old(self)@.edit_scorable(old(self)@.query.push(ch), old(self)@.right_query.push(ch)),
        ensures
            final(self).wf(),
            old(self)@.searchable() ==> final(self)@.searchable(),
            old(self)@.query_edited_to(
                final(self)@,
                old(self)@.query.push(ch),
                old(self)@.right_query.push(ch),
            ),
    {
        match self.searching_pane {
            Some(FocusPane::Left) => {
                push_char(&mut self.search_query, ch);
                proof {
                    lemma_same_content(old(self)@, self@);
                }
                self.apply_fuzzy_filter();
            },
            Some(FocusPane::Right) => {
                push_char(&mut self.right_search_query, ch);
                proof {
                    lemma_same_content(old(self)@, self@);
                }
                self.apply_right_fuzzy_filter();
            },
            None => {},
        }
    }

    pub fn backspace_search(&mut self)
        requires
            old(self).wf(),
            old(self)@.edit_scorable(without_last(old(self)@.query), without_last(old(self)@.right_query)),
        ensures
            final(self).wf(),
            old(self)@.searchable() ==> final(self)@.searchable(),
            old(self)@.query_edited_to(
                final(self)@,
                without_last(old(self)@.query),
                without_last(old(self)@.right_query),
            ),
    {
        match self.searching_pane {
            Some(FocusPane::Left) => {
                pop_char(&mut self.search_query);
                proof {
                    lemma_same_content(old(self)@, self@);
                }
                self.apply_fuzzy_filter();
            },
            Some(FocusPane::Right) => {
                pop_char(&mut self.right_search_query);
                proof {
                    lemma_same_content(old(self)@, self@);
                }
                self.apply_right_fuzzy_filter();
            },
            None => {},
        }
    }

    pub fn end_search(&mut self)
        requires
            old(self).wf(),
        ensures
            final(self).wf(),
            final(self)@ == (AppView { searching: None, ..old(self)@ }),
    {
        self.searching_pane = None;
    }

    // -- Confirm / Cancel --

    /// Returns the selection result if at least one component is selected: each type
    /// with a member selected, its members sorted.
    pub fn confirm(&self) -> (r: Option<SortedMap<Vec<String>>>)
        requires
            self.wf(),
        ensures
            self@.confirmed_as(r),
    {
        let ghost sel = self@.selections;
        let mut result: SortedMap<Vec<String>> = SortedMap::new();
        let mut i: usize = 0;
        while i < self.selections.len()
            invariant
                i <= self.selections.keys().len(),
                self.wf(),
                sel == self@.selections,
                result.wf(),
                forall|t: Seq<char>|
                    #[trigger] result.as_map().contains_key(t) <==> (exists|j: int|
                        0 <= j < i && #[trigger] self.selections.keys()[j] == t)
                        && sel[t] != Set::<Seq<char>>::empty(),
                forall|t: Seq<char>|
                    #[trigger] result.as_map().contains_key(t) ==> {
                        let members = views(result.as_map()[t]@);
                        &&& sorted_seqs(members)
                        &&& members.no_duplicates()
                        &&& members.to_set() == sel[t]
                    },
            decreases self.selections.keys().len() - i,
        {
            let key = self.selections.key_at(i);
            let members = self.selections.value_at(i);
            let ghost t = key@;
            proof {
                self.selections.lemma_index_unique(i as int);
                assert(self.selections.as_map().contains_key(t));
                assert(self.selections.as_map()[t] == *members);
                assert(sel.contains_key(t));
                assert(sel[t] == views(members@).to_set());
                if members.len() > 0 {
                    assert(views(members@)[0] == members@[0]@);
                    assert(views(members@).contains(members@[0]@));
                    assert(views(members@).to_set().contains(members@[0]@));
                } else {
                    assert(views(members@).to_set() =~= Set::<Seq<char>>::empty());
                }
            }
            if members.len() > 0 {
                let sorted = sort_strings(clone_strings(members));
                proof {
                    lemma_same_multiset(views(members@), views(sorted@));
                }
                let ghost old_map = result.as_map();
                result.insert(key.clone(), sorted);
                proof {
                    assert forall|u: Seq<char>|
                        #[trigger] result.as_map().contains_key(u) <==> (exists|j: int|
                            0 <= j < i + 1 && #[trigger] self.selections.keys()[j] == u)
                            && sel[u] != Set::<Seq<char>>::empty() by {
                        if u == t {
                            assert(self.selections.keys()[i as int] == u);
                        } else if result.as_map().contains_key(u) {
                            assert(old_map.contains_key(u));
                        } else if exists|j: int| 0 <= j < i + 1 && #[trigger] self.selections.keys()[j] == u {
                            let j = choose|j: int| 0 <= j < i + 1 && #[trigger] self.selections.keys()[j] == u;
                            assert(j != i);
                        }
                    }
                }
            } else {
                proof {
                    assert forall|u: Seq<char>|
                        #[trigger] result.as_map().contains_key(u) <==> (exists|j: int|
                            0 <= j < i + 1 && #[trigger] self.selections.keys()[j] == u)
                            && sel[u] != Set::<Seq<char>>::empty() by {
                        if exists|j: int| 0 <= j < i + 1 && #[trigger] self.selections.keys()[j] == u {
                            let j = choose|j: int| 0 <= j < i + 1 && #[trigger] self.selections.keys()[j] == u;
                            if j == i {
                                assert(u == t);
                            }
                        }
                    }
                }
            }
            i = i + 1;
        }
        proof {
            assert forall|t: Seq<char>| #[trigger] self@.confirmed_types().contains(t) <==> result.as_map().dom().contains(t) by {
                if self@.confirmed_types().contains(t) {
                    assert(self.selections.as_map().contains_key(t));
                    assert(self.selections.has(t));
                    let j = choose|j: int| 0 <= j < self.selections.keys().len() && self.selections.keys()[j] == t;
                    assert(self.selections.keys()[j] == t);
                }
                if result.as_map().dom().contains(t) {
                    let j = choose|j: int| 0 <= j < i && #[trigger] self.selections.keys()[j] == t;
                    assert(self.selections.has(t));
                    assert(self.selections.as_map().contains_key(t));
                }
            }
            assert(self@.confirmed_types() =~= result.as_map().dom());
        }
        if result.is_empty() {
            proof {
                assert(result.as_map().dom() =~= Set::<Seq<char>>::empty()) by {
                    assert forall|t: Seq<char>| !result.as_map().dom().contains(t) by {
                        if result.as_map().dom().contains(t) {
                            assert(result.has(t));
                        }
                    }
                }
            }
            None
        } else {
            proof {
                let k0 = result.keys()[0];
                assert(result.has(k0));
                assert(result.as_map().dom().contains(k0));
            }
            Some(result)
        }
    }

    pub fn cancel(&mut self)
        requires
            old(self).wf(),
        ensures
            final(self).wf(),
            final(self)@ == (AppView { should_quit: true, cancelled: true, ..old(self)@ }),
    {
        self.should_quit = true;
        self.cancelled = true;
    }

    // -- Component loading --

    /// Sets the component load result for a metadata type.
    pub fn set_components(&mut self, tname: &str, result: Result<Vec<String>, String>)
        requires
            old(self).wf(),
        ensures
            final(self).wf(),
            final(self)@ == old(self)@.with_load(tname@, result_load(result)),
            old(self)@.searchable() && (result matches Ok(v) ==> all_matchable(views(v@)))
                ==> final(self)@.searchable(),
    {
        let ghost pre = self@;
        let ghost l = result_load(result);
        match result {
            Ok(components) => {
                self.component_cache.insert(string_of(tname), ComponentLoadState::Loaded(components));
            },
            Err(msg) => {
                self.component_cache.insert(string_of(tname), ComponentLoadState::Error(msg));
            },
        }
        proof {
            assert(self@.cache =~= pre.cache.insert(tname@, l));
            assert(self@ =~= (AppView { cache: pre.cache.insert(tname@, l), ..pre }));
        }
        let highlighted = match self.highlighted_type() {
            Some(t) => str_eq(t.xml_name.as_str(), tname),
            None => false,
        };
        if highlighted {
            self.rebuild_right_filtered_indices();
        }
    }

    /// Checks if components need to be loaded for the highlighted type.
    /// If so, sets state to Loading and returns the type name.
    /// Returns `Some` when cache is empty or contains a stale `Loading` placeholder
    /// (inserted for UI display but not backed by an actual background load).
    pub fn request_components_if_needed(&mut self) -> (r: Option<String>)
        requires
            old(self).wf(),
        ensures
            final(self).wf(),
            final(self)@ == old(self)@.requested().0,
            match r {
                Some(t) => old(self)@.requested().1 == Some(t@),
                None => old(self)@.requested().1 is None,
            },
            old(self)@.searchable() ==> final(self)@.searchable(),
    {
        let ghost pre = self@;
        let tname = match self.highlighted_type() {
            Some(t) => t.xml_name.clone(),
            None => return None,
        };
        let needs = match self.component_cache.get(tname.as_str()) {
            Some(ComponentLoadState::Loaded(_)) => false,
            Some(ComponentLoadState::Error(_)) => false,
            _ => true,
        };
        proof {
            let t = tname@;
            if self.component_cache.has(t) {
                assert(self.component_cache.as_map().contains_key(t));
            }
            assert(needs == pre.needs_load(t));
        }
        if needs {
            self.component_cache.insert(tname.clone(), ComponentLoadState::Loading);
            proof {
                assert(self@ =~= (AppView { cache: pre.cache.insert(tname@, LoadView::Loading), ..pre }));
            }
            Some(tname)
        } else {
            None
        }
    }

    /// Builds the component list for a type, prepending `*` if wildcard is supported.
    pub fn build_component_list(tname: &str, components: Vec<String>) -> (r: Vec<String>)
        ensures
            component_list(tname@, views(components@), views(r@)),
    {
        let mut sorted = sort_strings(components);
        if supports_wildcard(tname) {
            let ghost before = views(sorted@);
            sorted.insert(0, wildcard_string());
            assert(views(sorted@).skip(1) =~= before);
        }
        sorted
    }

    /// Whether every name a search can score fits the matcher.
    pub fn is_searchable(&self) -> (r: bool)
        requires
            self.wf(),
        ensures
            r == self@.searchable(),
    {
        let mut i: usize = 0;
        while i < self.metadata_types.len()
            invariant
                i <= self.metadata_types.len(),
                forall|k: int| 0 <= k < i ==> matchable(#[trigger] type_names(self.metadata_types@)[k]),
            decreases self.metadata_types.len() - i,
        {
            if self.metadata_types[i].xml_name.unicode_len() > 0xffff_ffff {
                assert(!matchable(type_names(self.metadata_types@)[i as int]));
                return false;
            }
            i = i + 1;
        }
        let mut j: usize = 0;
        while j < self.component_cache.len()
            invariant
                j <= self.component_cache.keys().len(),
                self.wf(),
                all_matchable(self@.types),
                forall|k: int|
                    0 <= k < j ==> load_matchable(load_view(#[trigger] self.component_cache.values()[k])),
            decreases self.component_cache.keys().len() - j,
        {
            proof {
                self.component_cache.lemma_index_unique(j as int);
            }
            match self.component_cache.value_at(j) {
                ComponentLoadState::Loaded(names) => {
                    if !names_fit(names) {
                        proof {
                            let key = self.component_cache.keys()[j as int];
                            assert(self.component_cache.as_map().contains_key(key));
                            assert(self@.cache.contains_key(key));
                            assert(self@.cache[key] == load_view(self.component_cache.values()[j as int]));
                        }
                        return false;
                    }
                },
                _ => {},
            }
            j = j + 1;
        }
        proof {
            assert forall|n: Seq<char>| #[trigger] self@.cache.contains_key(n) implies load_matchable(
                self@.cache[n],
            ) by {
                let idx = self.component_cache.index_of(n);
                assert(self.component_cache.keys()[idx] == n);
                self.component_cache.lemma_index_unique(idx);
            }
        }
        true
    }

    /// Whether the right pane can be searched: the highlighted type's components are loaded.
    pub fn can_search_right(&self) -> (r: bool)
        requires
            self.wf(),
        ensures
            r == self@.shown() is Some,
    {
        self.highlighted_components().is_some()
    }

    pub fn rebuild_right_filtered_indices(&mut self)
        requires
            old(self).wf(),
        ensures
            final(self).wf(),
            final(self)@ == old(self)@.rebuilt_right(),
    {
        let n: usize = match self.highlighted_components() {
            Some(components) => components.len(),
            None => 0,
        };
        let mut indices: Vec<usize> = Vec::new();
        let mut i: usize = 0;
        while i < n
            invariant
                i <= n,
                indices@ == index_seq(i as nat),
            decreases n - i,
        {
            indices.push(i);
            assert(indices@ =~= index_seq((i + 1) as nat));
            i = i + 1;
        }
        self.right_filtered_indices = indices;
        self.right_cursor = 0;
    }

    pub fn clear_right_search(&mut self)
        requires
            old(self).wf(),
        ensures
            final(self).wf(),
            final(self)@ == old(self)@.cleared_right(),
    {
        self.right_search_query = String::new();
        self.rebuild_right_filtered_indices();
        if self.searching_pane == Some(FocusPane::Right) {
            self.searching_pane = None;
        }
    }
}

/// The strings of `list`, each once, in the order first listed.
pub fn dedup_strings(list: &Vec<String>) -> (r: Vec<String>)
    ensures
        views(r@).no_duplicates(),
        views(r@).to_set() == views(list@).to_set(),
{
    let ghost lv = views(list@);
    let mut r: Vec<String> = Vec::new();
    let mut i: usize = 0;
    while i < list.len()
        invariant
            i <= list.len(),
            lv == views(list@),
            views(r@).no_duplicates(),
            forall|x: Seq<char>| #[trigger] views(r@).contains(x) <==> lv.take(i as int).contains(x),
        decreases list.len() - i,
    {
        let ghost item = lv[i as int];
        assert(lv.take(i + 1) =~= lv.take(i as int).push(item));
        if !contains_str(&r, list[i].as_str()) {
            let ghost before = views(r@);
            r.push(list[i].clone());
            assert(views(r@) =~= before.push(item));
            assert forall|a: int, b: int|
                0 <= a < views(r@).len() && 0 <= b < views(r@).len() && a != b implies views(r@)[a]
                != views(r@)[b] by {
                if a == before.len() {
                    assert(before.contains(views(r@)[b]));
                } else if b == before.len() {
                    assert(before.contains(views(r@)[a]));
                }
            }
        }
        i = i + 1;
    }
    assert(lv.take(i as int) =~= lv);
    assert(views(r@).to_set() =~= lv.to_set());
    r
}

/// Whether every name fits the matcher.
pub fn names_fit(names: &Vec<String>) -> (r: bool)
    ensures
        r == all_matchable(views(names@)),
{
    let mut k: usize = 0;
    while k < names.len()
        invariant
            k <= names.len(),
            forall|m: int| 0 <= m < k ==> matchable(#[trigger] views(names@)[m]),
        decreases names.len() - k,
    {
        if names[k].unicode_len() > 0xffff_ffff {
            assert(!matchable(views(names@)[k as int]));
            return false;
        }
        k = k + 1;
    }
    true
}

/// `list` without `s`.
pub fn remove_member(list: &Vec<String>, s: &str) -> (r: Vec<String>)
    ensures
        views(r@).to_set() == views(list@).to_set().remove(s@),
        views(list@).no_duplicates() ==> views(r@).no_duplicates(),
{
    let ghost lv = views(list@);
    let mut r: Vec<String> = Vec::new();
    let mut i: usize = 0;
    while i < list.len()
        invariant
            i <= list.len(),
            lv == views(list@),
            forall|x: Seq<char>|
                #[trigger] views(r@).contains(x) <==> (lv.take(i as int).contains(x) && x != s@),
            lv.no_duplicates() ==> views(r@).no_duplicates(),
        decreases list.len() - i,
    {
        let ghost before = views(r@);
        let ghost item = lv[i as int];
        assert(lv.take(i + 1) =~= lv.take(i as int).push(item));
        if !str_eq(list[i].as_str(), s) {
            r.push(list[i].clone());
            assert(views(r@) =~= before.push(item));
            proof {
                if lv.no_duplicates() {
                    assert(!lv.take(i as int).contains(item)) by {
                        if lv.take(i as int).contains(item) {
                            let j = choose|j: int| 0 <= j < i && lv.take(i as int)[j] == item;
                            assert(lv[j] == lv[i as int]);
                        }
                    }
                    assert forall|a: int, b: int|
                        0 <= a < views(r@).len() && 0 <= b < views(r@).len() && a != b implies
                        views(r@)[a] != views(r@)[b] by {
                        if a == before.len() {
                            assert(before.contains(views(r@)[b]));
                        } else if b == before.len() {
                            assert(before.contains(views(r@)[a]));
                        } else {
                            assert(views(r@)[a] == before[a] && views(r@)[b] == before[b]);
                        }
                    }
                }
            }
        }
        i = i + 1;
    }
    assert(lv.take(i as int) =~= lv);
    assert(views(r@).to_set() =~= lv.to_set().remove(s@));
    r
}

/// The members of `members` with `c` toggled (see `toggle_set`).
pub fn toggled_members(members: Vec<String>, c: String) -> (r: Vec<String>)
    requires
        views(members@).no_duplicates(),
    ensures
        views(r@).no_duplicates(),
        views(r@).to_set() == toggle_set(views(members@).to_set(), c@),
{
    let ghost s = views(members@).to_set();
    let mut found = false;
    let mut i: usize = 0;
    while i < members.len()
        invariant
            i <= members.len(),
            found == views(members@).take(i as int).contains(c@),
        decreases members.len() - i,
    {
        assert(views(members@).take(i + 1) =~= views(members@).take(i as int).push(members@[i as int]@));
        if str_eq(members[i].as_str(), c.as_str()) {
            found = true;
        }
        i = i + 1;
    }
    assert(views(members@).take(i as int) =~= views(members@));
    if found {
        let r = remove_member(&members, c.as_str());
        assert(views(r@).to_set() =~= toggle_set(s, c@));
        r
    } else if is_wildcard(c.as_str()) {
        let mut r: Vec<String> = Vec::new();
        r.push(c);
        assert(views(r@) =~= seq![wildcard_text()]);
        assert(views(r@).to_set() =~= set![wildcard_text()]);
        r
    } else {
        let mut r = remove_member(&members, "*");
        proof {
            reveal_strlit("*");
            assert("*"@ =~= wildcard_text());
        }
        let ghost before = views(r@);
        let ghost cv = c@;
        r.push(c);
        assert(views(r@) =~= before.push(cv));
        proof {
            assert(!before.contains(cv)) by {
                if before.contains(cv) {
                    assert(before.to_set().contains(cv));
                }
            }
            assert forall|a: int, b: int|
                0 <= a < views(r@).len() && 0 <= b < views(r@).len() && a != b implies views(r@)[a]
                != views(r@)[b] by {
                if a == before.len() {
                    assert(before.contains(views(r@)[b]));
                } else if b == before.len() {
                    assert(before.contains(views(r@)[a]));
                } else {
                    assert(views(r@)[a] == before[a] && views(r@)[b] == before[b]);
                }
            }
            assert(views(r@).to_set() =~= toggle_set(s, cv));
        }
        r
    }
}

/// Switching the focus twice gives back the state it started from.
pub proof fn law_switch_focus_twice(v: AppView)
    ensures
        v.switched().switched() == v,
{
    assert(v.switched().switched() =~= v);
}

/// In the right pane, moving down and then up puts the cursor back where it was
/// and changes nothing else.
pub proof fn law_right_down_then_up(v: AppView)
    requires
        v.focus == FocusPane::Right,
        v.right_cursor < v.right_filtered.len() <= usize::MAX,
    ensures
        v.cursor_down().cursor_up() == v,
{
    let n = v.right_filtered.len() as int;
    lemma_next_prev(v.right_cursor, n as usize);
    let d = v.cursor_down();
    assert(d.right_cursor == next_index(v.right_cursor, n as usize));
    assert(d.right_filtered == v.right_filtered);
    assert(d.cursor_up().right_cursor == v.right_cursor);
    assert(v.cursor_down().cursor_up() =~= v);
}

/// In the left pane, moving down and then up puts the cursor back on the type it
/// was on.
pub proof fn law_left_down_then_up(v: AppView)
    requires
        v.focus == FocusPane::Left,
        v.left_cursor < v.filtered.len() <= usize::MAX,
    ensures
        v.cursor_down().cursor_up().left_cursor == v.left_cursor,
        v.cursor_down().cursor_up().highlighted() == v.highlighted(),
{
    let n = v.filtered.len() as int;
    lemma_next_prev(v.left_cursor, n as usize);
    let d = v.cursor_down();
    assert(d.left_cursor == next_index(v.left_cursor, n as usize));
    assert(d.filtered == v.filtered);
    assert(d.focus == FocusPane::Left);
    assert(d.cursor_up().left_cursor == v.left_cursor);
    assert(d.cursor_up().filtered == v.filtered);
    assert(d.cursor_up().types == v.types);
}

/// The position before the one after `c` is `c`.
pub proof fn lemma_next_prev(c: usize, n: usize)
    requires
        c < n,
    ensures
        next_index(c, n) < n,
        prev_index(next_index(c, n), n) == c,
{
    if c + 1 < n {
        vstd::arithmetic::div_mod::lemma_small_mod((c + 1) as nat, n as nat);
    } else {
        vstd::arithmetic::div_mod::lemma_mod_self_0(n as int);
    }
}

/// Toggling a member twice gives back the selection, unless the first toggle
/// dropped other members: selecting `*` over chosen members, or a member over `*`.
pub proof fn law_toggle_twice(s: Set<Seq<char>>, c: Seq<char>)
    requires
        wildcard_alone(s),
        s.contains(c) || (c == wildcard_text() ==> s == Set::<Seq<char>>::empty()) && (c
            != wildcard_text() ==> !s.contains(wildcard_text())),
    ensures
        toggle_set(toggle_set(s, c), c) == s,
{
    if s.contains(c) {
        if c == wildcard_text() {
            assert(toggle_set(toggle_set(s, c), c) =~= s);
        } else {
            assert(!s.contains(wildcard_text())) by {
                if s.contains(wildcard_text()) {
                    assert(set![wildcard_text()].contains(c));
                }
            }
            assert(toggle_set(toggle_set(s, c), c) =~= s);
        }
    } else {
        assert(toggle_set(toggle_set(s, c), c) =~= s);
    }
}

/// Toggling keeps the wildcard alone in a selection.
pub proof fn law_toggle_keeps_wildcard_alone(s: Set<Seq<char>>, c: Seq<char>)
    requires
        wildcard_alone(s),
    ensures
        wildcard_alone(toggle_set(s, c)),
{
    if s.contains(c) {
        if s.contains(wildcard_text()) {
            assert(s.remove(c) =~= Set::<Seq<char>>::empty());
        }
    } else if c != wildcard_text() {
        assert(!toggle_set(s, c).contains(wildcard_text()));
    }
}

/// Toggling keeps the wildcard alone in every selection of the picker: selecting
/// `*` clears the type's other members, and selecting another member clears `*`.
pub proof fn law_toggle_keeps_selections_exclusive(v: AppView)
    requires
        v.selections_exclusive(),
    ensures
        v.toggled().selections_exclusive(),
{
    match (v.highlighted(), v.component_under_cursor()) {
        (Some(t), Some(c)) => {
            if v.selections.contains_key(t) {
                law_toggle_keeps_wildcard_alone(v.selections[t], c);
            } else {
                law_toggle_keeps_wildcard_alone(Set::empty(), c);
            }
        },
        _ => {},
    }
}

/// Once a type's components are loaded, or their loading failed, asking for the
/// highlighted type's components fetches nothing.
pub proof fn law_loaded_not_requested_again(v: AppView, t: Seq<char>, l: LoadView)
    requires
        v.highlighted() == Some(t),
        l is Loaded || l is Error,
    ensures
        v.with_load(t, l).requested().1 is None,
        v.with_load(t, l).requested().0 == v.with_load(t, l),
{
}

/// A type marked `Loading` but not loaded is asked for again: the placeholder does
/// not stop a later fetch.
pub proof fn law_loading_requested_again(v: AppView)
    requires
        v.requested().1 is Some,
    ensures
        v.requested().0.requested().1 == v.requested().1,
        v.requested().0.requested().0 == v.requested().0,
{
    let t = v.highlighted()->0;
    assert(v.requested().0.highlighted() == Some(t));
    assert(v.requested().0.cache.insert(t, LoadView::Loading) =~= v.requested().0.cache);
    assert(v.requested().0.requested().0 =~= v.requested().0);
}

/// Validity depends on the types, the filter and the selections alone; dropping
/// cache entries keeps the state searchable.
pub proof fn lemma_same_content(a: AppView, b: AppView)
    requires
        a.types == b.types,
        a.filtered == b.filtered,
        forall|n: Seq<char>|
            #[trigger] b.cache.contains_key(n) ==> a.cache.contains_key(n) && a.cache[n] == b.cache[n],
        a.selections == b.selections,
    ensures
        a.valid() ==> b.valid(),
        a.searchable() ==> b.searchable(),
{
}

/// Stepping down as `(c % n + 1) % n` lands where `(c + 1) % n` does.
pub proof fn lemma_wrap_next(c: usize, n: usize)
    requires
        n > 0,
    ensures
        (c % n + 1) % (n as int) == next_index(c, n),
        c % n + 1 <= n,
{
    assert((c % n + 1) % (n as int) == (c + 1) % (n as int)) by (nonlinear_arith)
        requires
            n > 0,
    {
        vstd::arithmetic::div_mod::lemma_add_mod_noop(c as int, 1, n as int);
        vstd::arithmetic::div_mod::lemma_mod_twice(1, n as int);
        vstd::arithmetic::div_mod::lemma_mod_twice(c as int, n as int);
    }
}

} // verus!
