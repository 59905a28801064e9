//! The interactive browser's state: the loaded records, the filtered view,
//! the selection, the marks, and the search box. Every state change is a pure
//! step over an abstract view of the state, so the key handlers can be held
//! to an exact transition relation. Drawing and terminal I/O live with the
//! invocation layer.

use crate::models::Command;
use crate::storage::Storage;
use crate::storage::cmd_matches;
use crate::storage::cmd_matches_exec;
use crate::storage::sort_commands_desc;
use crate::storage::sorted_by_time_desc;
use crate::text::lowercased;
use crate::text::to_lowercase_string;
use std::collections::HashSet;
use vstd::prelude::*;

verus! {

broadcast use vstd::std_specs::hash::group_hash_axioms;

/// What the main pane shows.
#[derive(Clone, Copy, Debug, PartialEq, Eq, Structural)]
pub enum ViewMode {
    /// The list of commands.
    List,
    /// One command in full.
    Detail,
}

/// The abstract state of the browser, over which every transition is
/// specified.
#[verifier::ext_equal]
pub struct AppView {
    /// All loaded records.
    pub commands: Seq<Command>,
    /// Indices into `commands` of the records the current filter keeps.
    pub filtered: Seq<usize>,
    /// Position of the selection within `filtered`.
    pub selected: int,
    /// Scroll offset of the list.
    pub scroll: int,
    /// The search query being edited or applied.
    pub search_query: Seq<char>,
    /// Whether keystrokes edit the search query.
    pub search_mode: bool,
    /// Indices into `commands` of the marked records.
    pub marked: Set<usize>,
    /// What the main pane shows.
    pub view_mode: ViewMode,
    /// Whether the browser should exit.
    pub should_quit: bool,
}

/// The positions `0, 1, ..., n-1`.
pub open spec fn identity_indices(n: int) -> Seq<usize> {
    Seq::new(n as nat, |i: int| i as usize)
}

/// The positions, in ascending order, of the records among the first `n`
/// that match the lowercased query.
pub open spec fn matching_indices(commands: Seq<Command>, q: Seq<char>, n: int) -> Seq<usize>
    decreases n,
{
    if n <= 0 {
        Seq::empty()
    } else {
        matching_indices(commands, q, n - 1) + if cmd_matches(commands[n - 1], q) {
            seq![(n - 1) as usize]
        } else {
            Seq::empty()
        }
    }
}

/// What the filter keeps: everything when the query is empty, otherwise the
/// records matching the lowercased query.
pub open spec fn spec_filtered(commands: Seq<Command>, query: Seq<char>) -> Seq<usize> {
    if query.len() == 0 {
        identity_indices(commands.len() as int)
    } else {
        matching_indices(commands, lowercased(query), commands.len() as int)
    }
}

impl AppView {
    /// Filtered and marked positions point into `commands`, and the
    /// selection stays within the filtered list (at zero when it is empty).
    pub open spec fn wf(self) -> bool {
        &&& forall|i: int|
            0 <= i < self.filtered.len() ==> (#[trigger] self.filtered[i]) < self.commands.len()
        &&& (self.filtered.len() == 0 ==> self.selected == 0)
        &&& (self.filtered.len() > 0 ==> 0 <= self.selected < self.filtered.len())
        &&& forall|m: usize| #[trigger] self.marked.contains(m) ==> m < self.commands.len()
    }

    /// Move the selection down one row.
    pub open spec fn step_select_next(self) -> AppView {
        if self.filtered.len() == 0 {
            self
        } else {
            AppView {
                selected: vstd::math::min(self.selected + 1, self.filtered.len() - 1),
                ..self
            }
        }
    }

    /// Move the selection up one row.
    pub open spec fn step_select_previous(self) -> AppView {
        AppView { selected: vstd::math::max(self.selected - 1, 0), ..self }
    }

    /// Move the selection down one page.
    pub open spec fn step_page_down(self, page_size: int) -> AppView {
        if self.filtered.len() == 0 {
            self
        } else {
            AppView {
                selected: vstd::math::min(self.selected + page_size, self.filtered.len() - 1),
                ..self
            }
        }
    }

    /// Move the selection up one page.
    pub open spec fn step_page_up(self, page_size: int) -> AppView {
        AppView { selected: vstd::math::max(self.selected - page_size, 0), ..self }
    }

    /// Jump to the first row.
    pub open spec fn step_select_first(self) -> AppView {
        AppView { selected: 0, ..self }
    }

    /// Jump to the last row.
    pub open spec fn step_select_last(self) -> AppView {
        if self.filtered.len() == 0 {
            self
        } else {
            AppView { selected: self.filtered.len() - 1, ..self }
        }
    }

    /// Mark the selected record, or unmark it when already marked.
    pub open spec fn step_toggle_mark(self) -> AppView {
        if self.filtered.len() == 0 {
            self
        } else {
            let idx = self.filtered[self.selected];
            if self.marked.contains(idx) {
                AppView { marked: self.marked.remove(idx), ..self }
            } else {
                AppView { marked: self.marked.insert(idx), ..self }
            }
        }
    }

    /// Mark every record the filter keeps.
    pub open spec fn step_mark_all(self) -> AppView {
        AppView { marked: self.marked + self.filtered.to_set(), ..self }
    }

    /// Clear every mark.
    pub open spec fn step_clear_marks(self) -> AppView {
        AppView { marked: Set::empty(), ..self }
    }

    /// Re-apply the filter and reset the selection and scroll.
    pub open spec fn step_apply_filter(self) -> AppView {
        AppView {
            filtered: spec_filtered(self.commands, self.search_query),
            selected: 0,
            scroll: 0,
            ..self
        }
    }

    /// Switch between the list and the detail pane.
    pub open spec fn step_toggle_view_mode(self) -> AppView {
        AppView {
            view_mode: match self.view_mode {
                ViewMode::List => ViewMode::Detail,
                ViewMode::Detail => ViewMode::List,
            },
            ..self
        }
    }

    /// Append one character to the search query.
    pub open spec fn step_search_input(self, c: char) -> AppView {
        AppView { search_query: self.search_query.push(c), ..self }
    }

    /// Remove the last character of the search query, if any.
    pub open spec fn step_search_backspace(self) -> AppView {
        if self.search_query.len() == 0 {
            self
        } else {
            AppView { search_query: self.search_query.drop_last(), ..self }
        }
    }

    /// Empty the search query and re-apply the (now empty) filter.
    pub open spec fn step_clear_search(self) -> AppView {
        AppView { search_query: Seq::empty(), ..self }.step_apply_filter()
    }

    /// Ask the browser to exit.
    pub open spec fn step_quit(self) -> AppView {
        AppView { should_quit: true, ..self }
    }
}

/// The browser's state: the records, the filtered view, the selection, the
/// marks, and the search box.
pub struct App {
    /// Where the records were loaded from.
    pub storage: Storage,
    /// All loaded records, most recent first.
    pub commands: Vec<Command>,
    /// Indices into `commands` of the records the current filter keeps.
    pub filtered_commands: Vec<usize>,
    /// Position of the selection within `filtered_commands`.
    pub selected: usize,
    /// Scroll offset of the list.
    pub scroll: usize,
    /// The search query being edited or applied.
    pub search_query: String,
    /// Whether keystrokes edit the search query.
    pub search_mode: bool,
    /// Indices into `commands` of the marked records.
    pub marked: HashSet<usize>,
    /// What the main pane shows.
    pub view_mode: ViewMode,
    /// Whether the browser should exit.
    pub should_quit: bool,
}

impl View for App {
    type V = AppView;

    open spec fn view(&self) -> AppView {
        AppView {
            commands: self.commands@,
            filtered: self.filtered_commands@,
            selected: self.selected as int,
            scroll: self.scroll as int,
            search_query: self.search_query@,
            search_mode: self.search_mode,
            marked: self.marked@,
            view_mode: self.view_mode,
            should_quit: self.should_quit,
        }
    }
}

/// Relies on String::push: appends one character at the end of the string.
#[verifier::external_body]
fn push_char(s: &mut String, c: char)
    ensures
        final(s)@ == old(s)@.push(c),
{
    s.push(c);
}

/// Relies on String::pop: removes and returns the last character, if any.
#[verifier::external_body]
fn pop_char(s: &mut String) -> (r: Option<char>)
    ensures
        old(s)@.len() == 0 ==> final(s)@ == old(s)@ && r is None,
        old(s)@.len() > 0 ==> final(s)@ == old(s)@.drop_last() && r == Some(old(s)@.last()),
{
    s.pop()
}

/// Relies on String::clear: empties the string.
#[verifier::external_body]
pub(crate) fn clear_string(s: &mut String)
    ensures
        final(s)@ == Seq::<char>::empty(),
{
    s.clear();
}

impl App {
    /// Build the browser state over records loaded by the caller: records
    /// are put most recent first, the filter starts empty (keeping
    /// everything), nothing is marked, and the list pane shows.
    pub fn new(storage: Storage, commands: Vec<Command>) -> (app: App)
        ensures
            app@.wf(),
            app.storage == storage,
            sorted_by_time_desc(app@.commands),
            app@.commands.to_multiset() == commands@.to_multiset(),
            app@.filtered == identity_indices(app@.commands.len() as int),
            app@.selected == 0,
            app@.scroll == 0,
            app@.search_query.len() == 0,
            app@.search_mode == false,
            app@.marked == Set::<usize>::empty(),
            app@.view_mode == ViewMode::List,
            app@.should_quit == false,
    {
        let sorted = sort_commands_desc(commands);
        let n = sorted.len();
        let mut filtered: Vec<usize> = Vec::new();
        let mut i: usize = 0;
        proof {
            assert(filtered@ =~= identity_indices(0));
        }
        while i < n
            invariant
                i <= n,
                n == sorted@.len(),
                filtered@ == identity_indices(i as int),
            decreases n - i,
        {
            filtered.push(i);
            proof {
                assert(filtered@ =~= identity_indices(i + 1));
            }
            i += 1;
        }
        App {
            storage,
            commands: sorted,
            filtered_commands: filtered,
            selected: 0,
            scroll: 0,
            search_query: String::new(),
            search_mode: false,
            marked: HashSet::new(),
            view_mode: ViewMode::List,
            should_quit: false,
        }
    }

    /// Apply the current search filter and reset selection and scroll.
    pub fn apply_filter(&mut self)
        requires
            old(self)@.wf(),
        ensures
            final(self)@ == old(self)@.step_apply_filter(),
            final(self)@.wf(),
            final(self).storage == old(self).storage,
    {
        let n = self.commands.len();
        let mut filtered: Vec<usize> = Vec::new();
        if self.search_query.as_str().unicode_len() == 0 {
            let mut i: usize = 0;
            proof {
                assert(filtered@ =~= identity_indices(0));
            }
            while i < n
                invariant
                    i <= n,
                    n == self.commands@.len(),
                    filtered@ == identity_indices(i as int),
                decreases n - i,
            {
                filtered.push(i);
                proof {
                    assert(filtered@ =~= identity_indices(i + 1));
                }
                i += 1;
            }
            self.filtered_commands = filtered;
            self.selected = 0;
            self.scroll = 0;
        } else {
            let query = to_lowercase_string(self.search_query.as_str());
            let ghost q = lowercased(self.search_query@);
            let mut i: usize = 0;
            proof {
                assert(matching_indices(self.commands@, q, 0) =~= Seq::<usize>::empty());
            }
            while i < n
                invariant
                    i <= n,
                    n == self.commands@.len(),
                    query@ == q,
                    filtered@ == matching_indices(self.commands@, q, i as int),
                decreases n - i,
            {
                if cmd_matches_exec(&self.commands[i], &query) {
                    filtered.push(i);
                    proof {
                        assert(filtered@ =~= matching_indices(self.commands@, q, i as int).push(
                            i,
                        ));
                        assert(matching_indices(self.commands@, q, i + 1) =~= matching_indices(
                            self.commands@,
                            q,
                            i as int,
                        ).push(i));
                    }
                } else {
                    proof {
                        assert(matching_indices(self.commands@, q, i + 1) =~= matching_indices(
                            self.commands@,
                            q,
                            i as int,
                        ));
                    }
                }
                i += 1;
            }
            self.filtered_commands = filtered;
            self.selected = 0;
            self.scroll = 0;
        }
        proof {
            if old(self)@.search_query.len() > 0 {
                lemma_matching_indices_bounded(
                    old(self)@.commands,
                    lowercased(old(self)@.search_query),
                    old(self)@.commands.len() as int,
                );
            }
            assert(self@ =~= old(self)@.step_apply_filter());
        }
    }

    /// Move the selection down one row.
    pub fn select_next(&mut self)
        requires
            old(self)@.wf(),
        ensures
            final(self)@ == old(self)@.step_select_next(),
            final(self)@.wf(),
            final(self).storage == old(self).storage,
    {
        if self.filtered_commands.len() > 0 {
            if self.selected + 1 < self.filtered_commands.len() {
                self.selected = self.selected + 1;
            } else {
                self.selected = self.filtered_commands.len() - 1;
            }
        }
        proof {
            assert(self@ =~= old(self)@.step_select_next());
        }
    }

    /// Move the selection up one row.
    pub fn select_previous(&mut self)
        requires
            old(self)@.wf(),
        ensures
            final(self)@ == old(self)@.step_select_previous(),
            final(self)@.wf(),
            final(self).storage == old(self).storage,
    {
        if self.selected > 0 {
            self.selected = self.selected - 1;
        }
        proof {
            assert(self@ =~= old(self)@.step_select_previous());
        }
    }

    /// Move the selection down one page.
    pub fn page_down(&mut self, page_size: usize)
        requires
            old(self)@.wf(),
        ensures
            final(self)@ == old(self)@.step_page_down(page_size as int),
            final(self)@.wf(),
            final(self).storage == old(self).storage,
    {
        if self.filtered_commands.len() > 0 {
            let last = self.filtered_commands.len() - 1;
            if page_size < last - self.selected {
                self.selected = self.selected + page_size;
            } else {
                self.selected = last;
            }
        }
        proof {
            assert(self@ =~= old(self)@.step_page_down(page_size as int));
        }
    }

    /// Move the selection up one page.
    pub fn page_up(&mut self, page_size: usize)
        requires
            old(self)@.wf(),
        ensures
            final(self)@ == old(self)@.step_page_up(page_size as int),
            final(self)@.wf(),
            final(self).storage == old(self).storage,
    {
        if page_size > self.selected {
            self.selected = 0;
        } else {
            self.selected = self.selected - page_size;
        }
        proof {
            assert(self@ =~= old(self)@.step_page_up(page_size as int));
        }
    }

    /// Jump to the first row.
    pub fn select_first(&mut self)
        requires
            old(self)@.wf(),
        ensures
            final(self)@ == old(self)@.step_select_first(),
            final(self)@.wf(),
            final(self).storage == old(self).storage,
    {
        self.selected = 0;
        proof {
            assert(self@ =~= old(self)@.step_select_first());
        }
    }

    /// Jump to the last row.
    pub fn select_last(&mut self)
        requires
            old(self)@.wf(),
        ensures
            final(self)@ == old(self)@.step_select_last(),
            final(self)@.wf(),
            final(self).storage == old(self).storage,
    {
        if self.filtered_commands.len() > 0 {
            self.selected = self.filtered_commands.len() - 1;
        }
        proof {
            assert(self@ =~= old(self)@.step_select_last());
        }
    }

    /// Mark the selected record, or unmark it when already marked.
    pub fn toggle_mark(&mut self)
        requires
            old(self)@.wf(),
        ensures
            final(self)@ == old(self)@.step_toggle_mark(),
            final(self)@.wf(),
            final(self).storage == old(self).storage,
    {
        if self.filtered_commands.len() > 0 {
            let cmd_idx = self.filtered_commands[self.selected];
            if self.marked.contains(&cmd_idx) {
                self.marked.remove(&cmd_idx);
            } else {
                self.marked.insert(cmd_idx);
            }
        }
        proof {
            assert(self@ =~= old(self)@.step_toggle_mark());
        }
    }

    /// Mark every record the filter keeps.
    pub fn mark_all(&mut self)
        requires
            old(self)@.wf(),
        ensures
            final(self)@ == old(self)@.step_mark_all(),
            final(self)@.wf(),
            final(self).storage == old(self).storage,
    {
        let n = self.filtered_commands.len();
        let mut i: usize = 0;
        proof {
            assert(old(self)@.filtered.take(0).to_set() =~= Set::<usize>::empty());
            assert(self@.marked =~= old(self)@.marked + old(self)@.filtered.take(0).to_set());
        }
        while i < n
            invariant
                i <= n,
                n == self.filtered_commands@.len(),
                self.filtered_commands@ == old(self)@.filtered,
                self.commands@ == old(self)@.commands,
                self.selected == old(self).selected,
                self.scroll == old(self).scroll,
                self.search_query == old(self).search_query,
                self.search_mode == old(self).search_mode,
                self.view_mode == old(self).view_mode,
                self.should_quit == old(self).should_quit,
                self.storage == old(self).storage,
                old(self)@.wf(),
                self.marked@ == old(self)@.marked + old(self)@.filtered.take(i as int).to_set(),
            decreases n - i,
        {
            let idx = self.filtered_commands[i];
            self.marked.insert(idx);
            proof {
                assert(old(self)@.filtered.take(i + 1).to_set() =~= old(self)@.filtered.take(
                    i as int,
                ).to_set().insert(idx)) by {
                    assert forall|x: usize|
                        old(self)@.filtered.take(i + 1).to_set().contains(x) implies old(
                        self,
                    )@.filtered.take(i as int).to_set().insert(idx).contains(x) by {
                        let w = choose|w: int|
                            0 <= w < i + 1 && #[trigger] old(self)@.filtered.take(i + 1)[w] == x;
                        if w < i {
                            assert(old(self)@.filtered.take(i as int)[w] == x);
                            assert(old(self)@.filtered.take(i as int).to_set().contains(x));
                        }
                    }
                    assert forall|x: usize|
                        old(self)@.filtered.take(i as int).to_set().insert(idx).contains(
                            x,
                        ) implies old(self)@.filtered.take(i + 1).to_set().contains(x) by {
                        if x == idx {
                            assert(old(self)@.filtered.take(i + 1)[i as int] == x);
                        } else {
                            let w = choose|w: int|
                                0 <= w < i && #[trigger] old(self)@.filtered.take(i as int)[w]
                                    == x;
                            assert(old(self)@.filtered.take(i + 1)[w] == x);
                        }
                    }
                }
                assert(self.marked@ =~= old(self)@.marked + old(self)@.filtered.take(
                    i + 1,
                ).to_set());
            }
            i += 1;
        }
        proof {
            assert(old(self)@.filtered.take(n as int) =~= old(self)@.filtered);
            assert(self@ =~= old(self)@.step_mark_all());
        }
    }

    /// Clear every mark.
    pub fn clear_marks(&mut self)
        requires
            old(self)@.wf(),
        ensures
            final(self)@ == old(self)@.step_clear_marks(),
            final(self)@.wf(),
            final(self).storage == old(self).storage,
    {
        self.marked.clear();
        proof {
            assert(self@ =~= old(self)@.step_clear_marks());
        }
    }

    /// The selected record, or nothing when the filter keeps no records.
    pub fn get_selected_command(&self) -> (r: Option<&Command>)
        requires
            self@.wf(),
        ensures
            match r {
                Some(c) => self@.filtered.len() > 0 && *c == self@.commands[self@.filtered[self@.selected] as int],
                None => self@.filtered.len() == 0,
            },
    {
        if self.filtered_commands.len() == 0 {
            None
        } else {
            let idx = self.filtered_commands[self.selected];
            Some(&self.commands[idx])
        }
    }

    /// The marked positions, in ascending order: exactly the indices of the
    /// marked records.
    pub fn marked_indices_in_order(&self) -> (r: Vec<usize>)
        requires
            self@.wf(),
        ensures
            forall|i: int, j: int| 0 <= i < j < r@.len() ==> r@[i] < r@[j],
            forall|i: int| 0 <= i < r@.len() ==> self@.marked.contains(#[trigger] r@[i]),
            forall|k: usize| #[trigger] self@.marked.contains(k) ==> r@.contains(k),
    {
        let n = self.commands.len();
        let mut r: Vec<usize> = Vec::new();
        let mut k: usize = 0;
        while k < n
            invariant
                k <= n,
                n == self@.commands.len(),
                self@.wf(),
                forall|i: int, j: int| 0 <= i < j < r@.len() ==> r@[i] < r@[j],
                forall|i: int| 0 <= i < r@.len() ==> self@.marked.contains(#[trigger] r@[i]),
                forall|i: int| 0 <= i < r@.len() ==> r@[i] < k,
                forall|m: usize| #[trigger] self@.marked.contains(m) && m < k ==> r@.contains(m),
            decreases n - k,
        {
            if self.marked.contains(&k) {
                let ghost prev = r@;
                r.push(k);
                proof {
                    assert forall|m: usize|
                        #[trigger] self@.marked.contains(m) && m < k + 1 implies r@.contains(
                        m,
                    ) by {
                        if m < k {
                            let w = choose|w: int| 0 <= w < prev.len() && prev[w] == m;
                            assert(r@[w] == m);
                        } else {
                            assert(r@[r@.len() - 1] == m);
                        }
                    }
                }
            }
            k += 1;
        }
        proof {
            assert forall|m: usize| #[trigger] self@.marked.contains(m) implies r@.contains(m) by {
                assert(m < n);
            }
        }
        r
    }

    /// Switch between the list and the detail pane.
    pub fn toggle_view_mode(&mut self)
        requires
            old(self)@.wf(),
        ensures
            final(self)@ == old(self)@.step_toggle_view_mode(),
            final(self)@.wf(),
            final(self).storage == old(self).storage,
    {
        self.view_mode = match self.view_mode {
            ViewMode::List => ViewMode::Detail,
            ViewMode::Detail => ViewMode::List,
        };
        proof {
            assert(self@ =~= old(self)@.step_toggle_view_mode());
        }
    }

    /// Append one character to the search query.
    pub fn search_input(&mut self, c: char)
        requires
            old(self)@.wf(),
        ensures
            final(self)@ == old(self)@.step_search_input(c),
            final(self)@.wf(),
            final(self).storage == old(self).storage,
    {
        push_char(&mut self.search_query, c);
        proof {
            assert(self@ =~= old(self)@.step_search_input(c));
        }
    }

    /// Remove the last character of the search query, if any.
    pub fn search_backspace(&mut self)
        requires
            old(self)@.wf(),
        ensures
            final(self)@ == old(self)@.step_search_backspace(),
            final(self)@.wf(),
            final(self).storage == old(self).storage,
    {
        let _last = pop_char(&mut self.search_query);
        proof {
            assert(self@ =~= old(self)@.step_search_backspace());
        }
    }

    /// Empty the search query and re-apply the now-empty filter.
    pub fn clear_search(&mut self)
        requires
            old(self)@.wf(),
        ensures
            final(self)@ == old(self)@.step_clear_search(),
            final(self)@.wf(),
            final(self).storage == old(self).storage,
    {
        clear_string(&mut self.search_query);
        self.apply_filter();
        proof {
            assert(self@ =~= old(self)@.step_clear_search());
        }
    }

    /// Ask the browser to exit.
    pub fn quit(&mut self)
        requires
            old(self)@.wf(),
        ensures
            final(self)@ == old(self)@.step_quit(),
            final(self)@.wf(),
            final(self).storage == old(self).storage,
    {
        self.should_quit = true;
        proof {
            assert(self@ =~= old(self)@.step_quit());
        }
    }
}

/// The filter's output is well-formed: every kept position points below
/// `n` and positions ascend strictly.
pub proof fn lemma_matching_indices_bounded(commands: Seq<Command>, q: Seq<char>, n: int)
    requires
        0 <= n <= usize::MAX,
    ensures
        forall|i: int|
            0 <= i < matching_indices(commands, q, n).len() ==> (#[trigger] matching_indices(
                commands,
                q,
                n,
            )[i]) < n,
        forall|i: int, j: int|
            0 <= i < j < matching_indices(commands, q, n).len() ==> matching_indices(
                commands,
                q,
                n,
            )[i] < matching_indices(commands, q, n)[j],
    decreases n,
{
    if n > 0 {
        lemma_matching_indices_bounded(commands, q, n - 1);
        let prev = matching_indices(commands, q, n - 1);
        let cur = matching_indices(commands, q, n);
        if cmd_matches(commands[n - 1], q) {
            assert(cur =~= prev + seq![(n - 1) as usize]);
        } else {
            assert(cur =~= prev);
        }
        assert forall|i: int| 0 <= i < cur.len() implies cur[i] < n by {
            if i < prev.len() {
                assert(cur[i] == prev[i]);
            } else {
                assert(cur[i] == (n - 1) as usize);
            }
        }
        assert forall|i: int, j: int| 0 <= i < j < cur.len() implies cur[i] < cur[j] by {
            if j < prev.len() {
                assert(cur[i] == prev[i] && cur[j] == prev[j]);
            } else {
                assert(cur[j] == (n - 1) as usize);
                assert(cur[i] == prev[i] && prev[i] < n - 1);
            }
        }
    }
}

} // verus!
