//! What the picker's screen shows: pane titles, the lines of both lists with their
//! markers, the line under each cursor, and the help line.
use vstd::prelude::*;

use crate::strmap::SortedMap;
use crate::text::{string_of, views};
use crate::tui::app::{AppState, AppView, ComponentLoadState, FocusPane, LoadView};

verus! {

/// The title of a pane: its name, and the pane's filter while it is being searched
/// or while the filter is not empty.
pub open spec fn titled(name: Seq<char>, query: Seq<char>, shown: bool) -> Seq<char> {
    if shown || query.len() > 0 {
        name + " [/"@ + query + "]"@
    } else {
        name
    }
}

fn title_with_filter(name: String, query: &String, searching: bool) -> (r: String)
    ensures
        r@ == titled(name@, query@, searching),
{
    if searching || query.unicode_len() > 0 {
        name.concat(" [/").concat(query.as_str()).concat("]")
    } else {
        name
    }
}

/// `true` where type `t` has at least one member selected.
pub open spec fn has_selection(v: AppView, t: Seq<char>) -> bool {
    v.selections.contains_key(t) && v.selections[t] != Set::<Seq<char>>::empty()
}

/// A line of the left pane: `+ ` before a type with a selection, two spaces otherwise.
pub open spec fn type_line(v: AppView, t: Seq<char>) -> Seq<char> {
    (if has_selection(v, t) {
        "+ "@
    } else {
        "  "@
    }) + t
}

/// A line of the right pane: a check box, ticked for a selected member, then the name.
pub open spec fn component_line(selected: Set<Seq<char>>, c: Seq<char>) -> Seq<char> {
    (if selected.contains(c) {
        "[x] "@
    } else {
        "[ ] "@
    }) + c
}

/// What the right pane shows.
#[derive(Debug, PartialEq, Eq)]
pub enum RightPane {
    /// Nothing is known of the highlighted type's components (or nothing is highlighted).
    Blank,
    Loading,
    /// Loading failed with this message.
    Failed(String),
    /// The lines of the listed components, and the line under the cursor.
    Items(Vec<String>, Option<usize>),
}

impl AppState {
    /// The title of the left pane.
    pub fn left_title(&self) -> (r: String)
        ensures
            r@ == titled(
                "Metadata Types"@,
                self@.query,
                self@.searching == Some(FocusPane::Left),
            ),
    {
        let searching = self.searching_pane == Some(FocusPane::Left);
        title_with_filter(string_of("Metadata Types"), &self.search_query, searching)
    }

    /// The lines of the left pane, one per listed type, in display order.
    pub fn left_lines(&self) -> (r: Vec<String>)
        requires
            self.wf(),
        ensures
            r@.len() == self@.filtered.len(),
            forall|k: int|
                0 <= k < r@.len() ==> (#[trigger] r@[k])@ == type_line(
                    self@,
                    self@.types[self@.filtered[k] as int],
                ),
    {
        let mut r: Vec<String> = Vec::new();
        let mut k: usize = 0;
        while k < self.filtered_indices.len()
            invariant
                k <= self.filtered_indices.len(),
                self.wf(),
                r@.len() == k,
                forall|j: int|
                    0 <= j < k ==> (#[trigger] r@[j])@ == type_line(
                        self@,
                        self@.types[self@.filtered[j] as int],
                    ),
            decreases self.filtered_indices.len() - k,
        {
            let i = self.filtered_indices[k];
            assert(self@.filtered[k as int] < self@.types.len());
            let name = &self.metadata_types[i].xml_name;
            let selected = match self.selections.get(name.as_str()) {
                Some(members) => members.len() > 0,
                None => false,
            };
            proof {
                let t = name@;
                assert(self@.types[i as int] == t);
                if self.selections.has(t) {
                    assert(self.selections.as_map().contains_key(t));
                    let members = self.selections.as_map()[t];
                    if members@.len() > 0 {
                        assert(views(members@)[0] == members@[0]@);
                        assert(views(members@).to_set().contains(members@[0]@));
                    } else {
                        assert(views(members@).to_set() =~= Set::<Seq<char>>::empty());
                    }
                }
                assert(selected == has_selection(self@, t));
            }
            let prefix = if selected {
                string_of("+ ")
            } else {
                string_of("  ")
            };
            r.push(prefix.concat(name.as_str()));
            k = k + 1;
        }
        r
    }

    /// The line under the left cursor, where the list is not empty.
    pub fn left_selected(&self) -> (r: Option<usize>)
        ensures
            r == if self@.filtered.len() > 0 {
                Some(self@.left_cursor)
            } else {
                None::<usize>
            },
    {
        if self.filtered_indices.len() > 0 {
            Some(self.left_cursor)
        } else {
            None
        }
    }

    /// The title of the right pane: the highlighted type, or `Components`.
    pub fn right_title(&self) -> (r: String)
        requires
            self.wf(),
        ensures
            r@ == match self@.highlighted() {
                Some(t) => titled(t, self@.right_query, self@.searching == Some(FocusPane::Right)),
                None => "Components"@,
            },
    {
        match self.highlighted_type() {
            Some(t) => {
                let searching = self.searching_pane == Some(FocusPane::Right);
                title_with_filter(t.xml_name.clone(), &self.right_search_query, searching)
            },
            None => string_of("Components"),
        }
    }

    /// What the right pane shows: nothing, `Loading...`, the error, or the listed
    /// components (those the right pane's filter keeps, in its order) with their
    /// check boxes.
    pub fn right_pane(&self) -> (r: RightPane)
        requires
            self.wf(),
        ensures
            match self@.highlighted() {
                None => r == RightPane::Blank,
                Some(t) => if !self@.cache.contains_key(t) {
                    r == RightPane::Blank
                } else {
                    match self@.cache[t] {
                        LoadView::Loading => r == RightPane::Loading,
                        LoadView::Error(m) => r matches RightPane::Failed(s) && s@ == m,
                        LoadView::Loaded(comps) => r matches RightPane::Items(lines, cursor) && {
                            let listed = self@.right_filtered.filter(|i: usize| i < comps.len());
                            &&& lines@.len() == listed.len()
                            &&& forall|k: int|
                                0 <= k < lines@.len() ==> (#[trigger] lines@[k])@ == component_line(
                                    self@.selected_of(t),
                                    comps[listed[k] as int],
                                )
                            &&& cursor == if lines@.len() > 0 {
                                Some(self@.right_cursor)
                            } else {
                                None::<usize>
                            }
                        },
                    }
                },
            },
    {
        let t = match self.highlighted_type() {
            Some(t) => t,
            None => return RightPane::Blank,
        };
        let ghost tv = t.xml_name@;
        let state = match self.component_cache.get(t.xml_name.as_str()) {
            Some(s) => s,
            None => {
                proof {
                    assert(!self.component_cache.as_map().contains_key(tv));
                }
                return RightPane::Blank;
            },
        };
        proof {
            assert(self.component_cache.as_map().contains_key(tv));
            assert(self.component_cache.as_map()[tv] == *state);
        }
        match state {
            ComponentLoadState::Loading => RightPane::Loading,
            ComponentLoadState::Error(m) => RightPane::Failed(m.clone()),
            ComponentLoadState::Loaded(components) => {
                let selected: Option<&Vec<String>> = self.selections.get(t.xml_name.as_str());
                let ghost comps = views(components@);
                let ghost sel = self@.selected_of(tv);
                let ghost rf = self@.right_filtered;
                proof {
                    match selected {
                        Some(v) => {
                            assert(self.selections.as_map().contains_key(tv));
                            assert(sel == views(v@).to_set());
                        },
                        None => {
                            assert(!self.selections.as_map().contains_key(tv));
                        },
                    }
                }
                let mut lines: Vec<String> = Vec::new();
                let mut k: usize = 0;
                proof {
                    assert(rf.take(0).filter(|i: usize| i < comps.len()) =~= Seq::<usize>::empty());
                }
                while k < self.right_filtered_indices.len()
                    invariant
                        k <= self.right_filtered_indices.len(),
                        rf == self.right_filtered_indices@,
                        comps == views(components@),
                        sel == match selected {
                            Some(v) => views(v@).to_set(),
                            None => Set::<Seq<char>>::empty(),
                        },
                        lines@.len() == rf.take(k as int).filter(|i: usize| i < comps.len()).len(),
                        forall|j: int|
                            0 <= j < lines@.len() ==> (#[trigger] lines@[j])@ == component_line(
                                sel,
                                comps[rf.take(k as int).filter(|i: usize| i < comps.len())[j] as int],
                            ),
                    decreases self.right_filtered_indices.len() - k,
                {
                    let idx = self.right_filtered_indices[k];
                    let ghost before = rf.take(k as int).filter(|i: usize| i < comps.len());
                    proof {
                        assert(rf.take(k + 1) =~= rf.take(k as int).push(idx));
                        rf.take(k as int).lemma_filter_push(idx, |i: usize| i < comps.len());
                    }
                    if idx < components.len() {
                        let name = &components[idx];
                        let checked = match selected {
                            Some(v) => crate::text::contains_str(v, name.as_str()),
                            None => false,
                        };
                        let mark = if checked {
                            string_of("[x] ")
                        } else {
                            string_of("[ ] ")
                        };
                        proof {
                            assert(comps[idx as int] == name@);
                            match selected {
                                Some(v) => {
                                    assert(checked == views(v@).contains(name@));
                                },
                                None => {},
                            }
                            assert(checked == sel.contains(name@));
                        }
                        lines.push(mark.concat(name.as_str()));
                    }
                    k = k + 1;
                }
                proof {
                    assert(rf.take(k as int) =~= rf);
                }
                let cursor = if lines.len() > 0 {
                    Some(self.right_cursor)
                } else {
                    None
                };
                RightPane::Items(lines, cursor)
            },
        }
    }

    /// The help line, as pairs of a key (shown bold) and what it does.
    pub fn help_entries(&self) -> (r: Vec<(String, String)>)
        ensures
            r@.map_values(|e: (String, String)| (e.0@, e.1@)) == help_text(self@.searching is Some),
    {
        let mut r: Vec<(String, String)> = Vec::new();
        if self.searching_pane.is_some() {
            r.push((string_of("Type"), string_of(": filter  ")));
            r.push((string_of("Esc"), string_of(": stop search  ")));
            r.push((string_of("Enter"), string_of(": confirm")));
        } else {
            r.push((string_of("Tab/h/l"), string_of(": pane  ")));
            r.push((string_of("j/k"), string_of(": move  ")));
            r.push((string_of("Space"), string_of(": select  ")));
            r.push((string_of("Enter"), string_of(": confirm  ")));
            r.push((string_of("/"), string_of(": search  ")));
            r.push((string_of("Esc"), string_of(": cancel")));
        }
        assert(r@.map_values(|e: (String, String)| (e.0@, e.1@)) =~= help_text(self@.searching is Some));
        r
    }
}

/// The help line: in search mode the keys of search mode, otherwise those of
/// normal mode.
pub open spec fn help_text(searching: bool) -> Seq<(Seq<char>, Seq<char>)> {
    if searching {
        seq![("Type"@, ": filter  "@), ("Esc"@, ": stop search  "@), ("Enter"@, ": confirm"@)]
    } else {
        seq![
            ("Tab/h/l"@, ": pane  "@),
            ("j/k"@, ": move  "@),
            ("Space"@, ": select  "@),
            ("Enter"@, ": confirm  "@),
            ("/"@, ": search  "@),
            ("Esc"@, ": cancel"@),
        ]
    }
}

/// Law: a line of the left pane is the type's name after a two-character marker,
/// and the marker is `+ ` exactly when some member of the type is selected (a type
/// whose set of selected members is empty, or that has none, gets two spaces).
pub proof fn law_left_marker_iff_member_selected(v: AppView, t: Seq<char>)
    ensures
        type_line(v, t).len() == t.len() + 2,
        type_line(v, t).subrange(2, type_line(v, t).len() as int) == t,
        type_line(v, t).subrange(0, 2) == "+ "@ <==> exists|m: Seq<char>|
            v.selections.contains_key(t) && #[trigger] v.selections[t].contains(m),
        type_line(v, t).subrange(0, 2) != "+ "@ ==> type_line(v, t).subrange(0, 2) == "  "@,
{
    reveal_strlit("+ ");
    reveal_strlit("  ");
    let line = type_line(v, t);
    let marker: Seq<char> = if has_selection(v, t) {
        "+ "@
    } else {
        "  "@
    };
    assert(line.subrange(0, 2) =~= marker);
    assert(line.subrange(2, line.len() as int) =~= t);
    if v.selections.contains_key(t) && v.selections[t] != Set::<Seq<char>>::empty() {
        let m = v.selections[t].choose();
        assert(v.selections[t].contains(m)) by {
            if !v.selections[t].contains(m) {
                assert(v.selections[t] =~= Set::<Seq<char>>::empty());
            }
        }
    }
    if exists|m: Seq<char>| v.selections.contains_key(t) && #[trigger] v.selections[t].contains(m) {
        let m = choose|m: Seq<char>| v.selections.contains_key(t) && #[trigger] v.selections[t].contains(m);
        assert(!Set::<Seq<char>>::empty().contains(m));
    }
    assert("+ "@[0] != "  "@[0]);
}

} // verus!
