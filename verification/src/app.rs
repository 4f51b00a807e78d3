//! State of the interactive picker.

use vstd::prelude::*;
use crate::app::state::AppState;
use crate::project::{Place, Project};
use crate::order::views;
use crate::sorter::{is_ranking, texts, Sorter, SorterState};
use crate::widgets::preview::{Preview, PreviewState};
use crate::widgets::searchbar::Searchbar;

pub mod state;

verus! {

/// The picker: the projects that were found, the prompt, and those of the
/// projects that match it, the best match first.
pub struct App {
    state: AppState,
    projects: Vec<Project>,
    filtered_projects: Vec<Project>,
    selected: Option<usize>,
    searchbar: Searchbar,
    preview: Preview,
    sorter: Sorter,
}

/// What can be seen of an [`App`] from outside.
pub struct AppView {
    /// Whether the picker is still running.
    pub running: bool,
    /// The projects that can be picked.
    pub projects: Seq<Place>,
    /// Those of them that match the prompt, the best match first.
    pub filtered: Seq<Place>,
    /// The place in `filtered` of the project that is selected.
    pub selected: Option<usize>,
    /// The prompt.
    pub search: Seq<char>,
    /// The preview pane.
    pub preview: PreviewState,
    /// The ranking engine.
    pub sorter: SorterState,
}

impl AppView {
    /// The place in `filtered` that is selected; the first one where none
    /// was chosen.
    pub open spec fn cursor(self) -> int {
        match self.selected {
            Some(at) => at as int,
            None => 0,
        }
    }

    /// The project that is selected, if the selected place holds one.
    pub open spec fn selected_place(self) -> Option<Place> {
        if self.cursor() < self.filtered.len() {
            Some(self.filtered[self.cursor()])
        } else {
            None
        }
    }

    /// The place after the selected one; the first where that was the last.
    pub open spec fn above(self) -> int {
        if self.cursor() + 1 < self.filtered.len() {
            self.cursor() + 1
        } else {
            0
        }
    }

    /// The place before the selected one; the last where that was the first.
    pub open spec fn below(self) -> int {
        if self.cursor() > 0 {
            self.cursor() - 1
        } else {
            self.filtered.len() - 1
        }
    }

    /// This state once the picker was closed.
    pub open spec fn stopped(self) -> AppView {
        AppView { running: false, ..self }
    }

    /// This state with the preview turned to the selected project.
    pub open spec fn shown(self) -> AppView {
        AppView {
            preview: PreviewState {
                visible: self.preview.visible,
                selected: self.selected_place(),
            },
            ..self
        }
    }

    /// This state once the place `at` was selected and the preview turned to
    /// the project there.
    pub open spec fn moved_to(self, at: int) -> AppView {
        (AppView { selected: Some(at as usize), ..self }).shown()
    }

    /// This state once the prompt was emptied: every project matches, in the
    /// order in which the projects stand.
    pub open spec fn cleared(self) -> AppView {
        AppView { search: Seq::<char>::empty(), filtered: self.projects, ..self }
    }

    /// This state once the preview was enabled or disabled.
    pub open spec fn toggled(self) -> AppView {
        AppView {
            preview: PreviewState {
                visible: !self.preview.visible,
                selected: self.preview.selected,
            },
            ..self
        }
    }

    /// This state with `c` added to the prompt and the first place selected,
    /// before the projects are ranked anew.
    pub open spec fn typed(self, c: char) -> AppView {
        AppView { search: self.search.push(c), selected: Some(0usize), ..self }
    }

    /// This state with the last character taken off the prompt, before the
    /// projects are ranked anew.
    pub open spec fn erased(self) -> AppView {
        AppView { search: self.search.drop_last(), ..self }
    }

    /// Whether `self` is the state `before` once its projects were ranked
    /// anew for its prompt, and the preview was turned to the selected
    /// project.
    pub open spec fn is_filtered_from(self, before: AppView) -> bool {
        &&& self.running == before.running
        &&& self.projects == before.projects
        &&& self.selected == before.selected
        &&& self.search == before.search
        &&& is_ranking::<Project>(
            self.filtered,
            before.projects,
            before.search,
            before.sorter.ngram_len,
            before.sorter.separator,
        )
        &&& self.sorter == before.sorter.after_sort(before.search, texts::<Project>(before.projects))
        &&& self.preview == (PreviewState {
            visible: before.preview.visible,
            selected: self.selected_place(),
        })
    }

    /// Whether `self` is the state `before` once the last character was
    /// taken off the prompt: where that empties the prompt, every project
    /// matches again; otherwise the projects were ranked anew.
    pub open spec fn is_popped_from(self, before: AppView) -> bool {
        if before.search.len() <= 1 {
            self == before.cleared()
        } else {
            self.is_filtered_from(before.erased())
        }
    }
}

impl View for App {
    type V = AppView;

    closed spec fn view(&self) -> AppView {
        AppView {
            running: self.state is Running,
            projects: views(self.projects@),
            filtered: views(self.filtered_projects@),
            selected: self.selected,
            search: self.searchbar@,
            preview: self.preview@,
            sorter: self.sorter@,
        }
    }
}

/// Whether one of `places` is the same place as `place`.
pub open spec fn same_as_any(place: Place, places: Seq<Place>) -> bool {
    exists|i: int| 0 <= i < places.len() && place.same_as(#[trigger] places[i])
}

/// `places` without each place that is the same as one that stands before
/// it: of places that are the same the first one stays.
pub open spec fn without_repeats(places: Seq<Place>) -> Seq<Place>
    decreases places.len(),
{
    if places.len() == 0 {
        places
    } else if same_as_any(places.last(), places.drop_last()) {
        without_repeats(places.drop_last())
    } else {
        without_repeats(places.drop_last()).push(places.last())
    }
}

/// Whether `place` is somewhere inside one of `places`.
pub open spec fn nested_in_any(place: Place, places: Seq<Place>) -> bool {
    exists|i: int| 0 <= i < places.len() && place.nested_in(#[trigger] places[i])
}

/// Those of `places` that are inside no other of them.
pub open spec fn outermost(places: Seq<Place>) -> Seq<Place> {
    places.filter(|place: Place| !nested_in_any(place, places))
}

/// The projects among `places`: each place once, and none that is inside
/// another.
pub open spec fn roots(places: Seq<Place>) -> Seq<Place> {
    outermost(without_repeats(places))
}

/// Whether no two of `places` are the same place.
pub open spec fn all_apart(places: Seq<Place>) -> bool {
    forall|i: int, j: int| 0 <= i < j < places.len() ==> !places[i].same_as(places[j])
}

/// What is left of `places` once repeats are dropped stood among `places`.
pub proof fn lemma_without_repeats_keeps_places(places: Seq<Place>, place: Place)
    requires
        without_repeats(places).contains(place),
    ensures
        places.contains(place),
    decreases places.len(),
{
    if places.len() > 0 {
        let rest = places.drop_last();
        let kept = without_repeats(rest);
        if kept.contains(place) {
            lemma_without_repeats_keeps_places(rest, place);
            let i = choose|i: int| 0 <= i < rest.len() && rest[i] == place;
            assert(places[i] == place);
        } else {
            let pushed = kept.push(places.last());
            let i = choose|i: int| 0 <= i < pushed.len() && pushed[i] == place;
            assert(places[places.len() - 1] == place);
        }
    }
}

/// Once repeats are dropped no two places are the same.
pub proof fn lemma_without_repeats_are_apart(places: Seq<Place>)
    ensures
        all_apart(without_repeats(places)),
    decreases places.len(),
{
    if places.len() > 0 {
        let rest = places.drop_last();
        let kept = without_repeats(rest);
        lemma_without_repeats_are_apart(rest);
        if !same_as_any(places.last(), rest) {
            assert forall|i: int| 0 <= i < kept.len() implies !kept[i].same_as(places.last()) by {
                assert(kept.contains(kept[i]));
                lemma_without_repeats_keeps_places(rest, kept[i]);
                let k = choose|k: int| 0 <= k < rest.len() && rest[k] == kept[i];
                assert(!places.last().same_as(rest[k]));
            }
        }
    }
}

/// Every place has its like among what is left once repeats are dropped.
pub proof fn lemma_without_repeats_keeps_one_of_each(places: Seq<Place>, place: Place)
    requires
        same_as_any(place, places),
    ensures
        same_as_any(place, without_repeats(places)),
    decreases places.len(),
{
    let at = choose|i: int| 0 <= i < places.len() && place.same_as(#[trigger] places[i]);
    let rest = places.drop_last();
    let kept = without_repeats(rest);
    if at < places.len() - 1 {
        assert(place.same_as(rest[at]));
        lemma_without_repeats_keeps_one_of_each(rest, place);
        let k = choose|k: int| 0 <= k < kept.len() && place.same_as(#[trigger] kept[k]);
        assert(place.same_as(without_repeats(places)[k]));
    } else if same_as_any(places.last(), rest) {
        let other = choose|i: int| 0 <= i < rest.len() && places.last().same_as(#[trigger] rest[i]);
        assert(place.same_as(rest[other]));
        lemma_without_repeats_keeps_one_of_each(rest, place);
        let k = choose|k: int| 0 <= k < kept.len() && place.same_as(#[trigger] kept[k]);
        assert(place.same_as(without_repeats(places)[k]));
    } else {
        assert(place.same_as(without_repeats(places)[kept.len() as int]));
    }
}

/// Those of places that are all apart which meet a condition are all apart.
proof fn lemma_filter_keeps_apart(places: Seq<Place>, keep: spec_fn(Place) -> bool)
    requires
        all_apart(places),
    ensures
        all_apart(places.filter(keep)),
    decreases places.len(),
{
    if places.len() > 0 {
        let rest = places.drop_last();
        let kept = rest.filter(keep);
        assert(places =~= rest.push(places.last()));
        rest.lemma_filter_push(places.last(), keep);
        assert(all_apart(rest)) by {
            assert forall|i: int, j: int| 0 <= i < j < rest.len() implies !rest[i].same_as(
                rest[j],
            ) by {
                assert(rest[i] == places[i] && rest[j] == places[j]);
            }
        }
        lemma_filter_keeps_apart(rest, keep);
        assert forall|i: int| 0 <= i < kept.len() implies !kept[i].same_as(places.last()) by {
            assert(kept.contains(kept[i]));
            rest.lemma_filter_contains_rev(keep, kept[i]);
            let k = choose|k: int| 0 <= k < rest.len() && rest[k] == kept[i];
            assert(!places[k].same_as(places[places.len() - 1]));
        }
    }
}

/// Among the projects no place stands twice.
pub proof fn lemma_roots_are_apart(places: Seq<Place>)
    ensures
        all_apart(roots(places)),
{
    let distinct = without_repeats(places);
    lemma_without_repeats_are_apart(places);
    lemma_filter_keeps_apart(distinct, |place: Place| !nested_in_any(place, distinct));
}

/// Each of the projects among `places` stood among `places`, and is inside
/// none of those that are left of `places` once repeats are dropped.
pub proof fn lemma_roots_are_outermost(places: Seq<Place>, place: Place)
    requires
        roots(places).contains(place),
    ensures
        places.contains(place),
        !nested_in_any(place, without_repeats(places)),
{
    let distinct = without_repeats(places);
    let outer = |place: Place| !nested_in_any(place, distinct);
    distinct.lemma_filter_contains_rev(outer, place);
    lemma_without_repeats_keeps_places(places, place);
}

/// Copies of `projects`, in order.
fn copies(projects: &Vec<Project>) -> (copied: Vec<Project>)
    ensures
        views(copied@) == views(projects@),
{
    let mut copied: Vec<Project> = Vec::new();
    let mut i: usize = 0;
    while i < projects.len()
        invariant
            i <= projects.len(),
            views(copied@) == views(projects@).take(i as int),
        decreases projects.len() - i,
    {
        copied.push(projects[i].clone());
        assert(views(projects@).take(i + 1) =~= views(projects@).take(i as int).push(
            projects@[i as int]@,
        ));
        i += 1;
    }
    copied
}

/// Whether one of the first `before` of `projects` is at the same place as
/// `project`.
fn is_same_as_any(project: &Project, projects: &Vec<Project>, before: usize) -> (same: bool)
    requires
        before <= projects@.len(),
    ensures
        same == same_as_any(project@, views(projects@).take(before as int)),
{
    let mut i: usize = 0;
    while i < before
        invariant
            i <= before <= projects.len(),
            forall|j: int| 0 <= j < i ==> !project@.same_as(#[trigger] views(projects@)[j]),
        decreases before - i,
    {
        if project.is_same_as(&projects[i]) {
            assert(project@.same_as(views(projects@).take(before as int)[i as int]));
            return true;
        }
        i += 1;
    }
    proof {
        let earlier = views(projects@).take(before as int);
        assert forall|j: int| 0 <= j < earlier.len() implies !project@.same_as(
            #[trigger] earlier[j],
        ) by {
            assert(earlier[j] == views(projects@)[j]);
        }
    }
    false
}

/// `projects` without each project that is at the same place as one that
/// stands before it.
fn drop_repeats(projects: &Vec<Project>) -> (kept: Vec<Project>)
    ensures
        views(kept@) == without_repeats(views(projects@)),
{
    let ghost all = views(projects@);
    let mut kept: Vec<Project> = Vec::new();
    let mut i: usize = 0;
    assert(views(kept@) =~= without_repeats(all.take(0)));
    while i < projects.len()
        invariant
            i <= projects.len(),
            all == views(projects@),
            views(kept@) == without_repeats(all.take(i as int)),
        decreases projects.len() - i,
    {
        let repeated = is_same_as_any(&projects[i], projects, i);
        let ghost before = kept@;
        proof {
            let next = all.take(i + 1);
            assert(next.drop_last() =~= all.take(i as int));
            assert(next.last() == projects@[i as int]@);
        }
        if !repeated {
            kept.push(projects[i].clone());
            assert(views(kept@) =~= views(before).push(projects@[i as int]@));
        }
        i += 1;
    }
    assert(all.take(all.len() as int) =~= all);
    kept
}

/// Whether `project` is somewhere inside one of `projects`.
fn is_nested_in_any(project: &Project, projects: &Vec<Project>) -> (nested: bool)
    ensures
        nested == nested_in_any(project@, views(projects@)),
{
    let mut i: usize = 0;
    while i < projects.len()
        invariant
            i <= projects.len(),
            forall|j: int| 0 <= j < i ==> !project@.nested_in(#[trigger] views(projects@)[j]),
        decreases projects.len() - i,
    {
        if project.is_nested_in(&projects[i]) {
            assert(project@.nested_in(views(projects@)[i as int]));
            return true;
        }
        i += 1;
    }
    false
}

/// Those of `projects` that are inside no other of them.
fn keep_outermost(projects: &Vec<Project>) -> (kept: Vec<Project>)
    ensures
        views(kept@) == outermost(views(projects@)),
{
    let ghost all = views(projects@);
    let ghost outer = |place: Place| !nested_in_any(place, all);
    let mut kept: Vec<Project> = Vec::new();
    let mut i: usize = 0;
    while i < projects.len()
        invariant
            i <= projects.len(),
            all == views(projects@),
            outer == (|place: Place| !nested_in_any(place, all)),
            views(kept@) == all.take(i as int).filter(outer),
        decreases projects.len() - i,
    {
        let nested = is_nested_in_any(&projects[i], projects);
        proof {
            let seen = all.take(i as int);
            assert(all.take(i + 1) =~= seen.push(projects@[i as int]@));
            seen.lemma_filter_push(projects@[i as int]@, outer);
        }
        if !nested {
            kept.push(projects[i].clone());
        }
        i += 1;
    }
    assert(all.take(all.len() as int) =~= all);
    kept
}

impl Default for App {
    /// A picker without projects.
    fn default() -> (app: App)
        ensures
            app@.running,
            app@.projects == Seq::<Place>::empty(),
            app@.filtered == Seq::<Place>::empty(),
            app@.selected == Some(0usize),
            app@.search == Seq::<char>::empty(),
            app@.preview == (PreviewState { visible: true, selected: None }),
            app@.sorter.ngram_len == 2,
            app@.sorter.cached_ngrams == Map::<Seq<char>, Seq<Seq<char>>>::empty(),
            app@.sorter.cached_uppers == Map::<Seq<char>, Set<char>>::empty(),
    {
        let app = App {
            state: AppState::Running,
            projects: Vec::new(),
            filtered_projects: Vec::new(),
            selected: Some(0),
            searchbar: Searchbar::default(),
            preview: Preview::default(),
            sorter: Sorter::default(),
        };
        app
    }
}

impl App {
    /// A picker over `projects`, from which repeated projects and projects
    /// inside other projects are left out: each place stands once among the
    /// projects of the picker. The prompt is empty, so every project
    /// matches; the first one is selected.
    pub fn new(projects: Vec<Project>) -> (app: App)
        ensures
            app@.running,
            app@.projects == roots(views(projects@)),
            all_apart(app@.projects),
            app@.filtered == app@.projects,
            app@.selected == Some(0usize),
            app@.search == Seq::<char>::empty(),
            app@.preview == (PreviewState { visible: true, selected: None }),
            app@.sorter.ngram_len == 2,
            app@.sorter.cached_ngrams == Map::<Seq<char>, Seq<Seq<char>>>::empty(),
            app@.sorter.cached_uppers == Map::<Seq<char>, Set<char>>::empty(),
    {
        let mut app = App { projects, ..App::default() };
        app.dedup();
        app.filtered_projects = copies(&app.projects);
        app
    }

    /// Leaves out each project that is at the same place as one that stands
    /// before it, and then each project that is inside another.
    fn dedup(&mut self)
        ensures
            final(self)@ == (AppView { projects: roots(old(self)@.projects), ..old(self)@ }),
            all_apart(final(self)@.projects),
    {
        let distinct = drop_repeats(&self.projects);
        self.projects = keep_outermost(&distinct);
        proof {
            lemma_roots_are_apart(old(self)@.projects);
        }
    }

    /// Whether the picker is still running.
    pub fn state(&self) -> (state: &AppState)
        ensures
            (*state is Running) == self@.running,
    {
        &self.state
    }

    /// The projects that can be picked.
    pub fn projects(&self) -> (projects: &Vec<Project>)
        ensures
            views(projects@) == self@.projects,
    {
        &self.projects
    }

    /// The projects that match the prompt, the best match first.
    pub fn filtered_projects(&self) -> (projects: &Vec<Project>)
        ensures
            views(projects@) == self@.filtered,
    {
        &self.filtered_projects
    }

    /// The place that is selected among the matches.
    pub fn selected_index(&self) -> (at: Option<usize>)
        ensures
            at == self@.selected,
    {
        self.selected
    }

    /// The bar in which the prompt is typed.
    pub fn searchbar(&self) -> (bar: &Searchbar)
        ensures
            bar@ == self@.search,
    {
        &self.searchbar
    }

    /// The preview pane.
    pub fn preview(&self) -> (preview: &Preview)
        ensures
            preview@ == self@.preview,
    {
        &self.preview
    }

    /// Handles the tick event of the terminal: nothing is to be done.
    pub fn tick(&self) {
    }

    /// Closes the picker.
    pub fn quit(&mut self)
        ensures
            final(self)@ == old(self)@.stopped(),
    {
        self.state = AppState::Stopped;
    }

    /// Goes up one in the list, and from its top back to its bottom. The
    /// preview turns to the project that is selected then.
    pub fn up(&mut self)
        ensures
            final(self)@ == old(self)@.moved_to(old(self)@.above()),
    {
        let current = match self.selected {
            Some(at) => at,
            None => 0,
        };
        let next = if current < self.filtered_projects.len() && current + 1
            < self.filtered_projects.len() {
            current + 1
        } else {
            0
        };
        self.selected = Some(next);
        self.show_selected();
    }

    /// Goes down one in the list, and from its bottom back to its top. The
    /// preview turns to the project that is selected then.
    pub fn down(&mut self)
        requires
            old(self)@.cursor() > 0 || old(self)@.filtered.len() > 0,
        ensures
            final(self)@ == old(self)@.moved_to(old(self)@.below()),
    {
        let current = match self.selected {
            Some(at) => at,
            None => 0,
        };
        let next = if current > 0 {
            current - 1
        } else {
            self.filtered_projects.len() - 1
        };
        self.selected = Some(next);
        self.show_selected();
    }

    /// Turns the preview to the project that is selected.
    fn show_selected(&mut self)
        ensures
            final(self)@ == old(self)@.shown(),
    {
        let shown = match self.selected() {
            Some(project) => Some(project.clone()),
            None => None,
        };
        self.preview.select(shown);
    }

    /// Ranks the projects anew for the prompt as it stands, and turns the
    /// preview to the project that is selected then.
    pub fn filter_projects(&mut self)
        ensures
            final(self)@.is_filtered_from(old(self)@),
    {
        self.filtered_projects = self.sorter.sort(
            self.projects.as_slice(),
            self.searchbar.content(),
        );
        self.show_selected();
    }

    /// The project that is selected, if the selected place holds one.
    pub fn selected(&self) -> (project: Option<&Project>)
        ensures
            self@.selected_place() == match project {
                Some(project) => Some(project@),
                None => None,
            },
    {
        let current = match self.selected {
            Some(at) => at,
            None => 0,
        };
        if current < self.filtered_projects.len() {
            Some(&self.filtered_projects[current])
        } else {
            None
        }
    }

    /// Adds `c` to the prompt, selects the first place, and ranks the
    /// projects anew.
    pub fn push_search(&mut self, c: char)
        ensures
            final(self)@.is_filtered_from(old(self)@.typed(c)),
    {
        self.searchbar.push(c);
        self.selected = Some(0);
        self.filter_projects();
    }

    /// Takes the last character off the prompt. Where that empties the
    /// prompt, every project matches again, in the order in which the
    /// projects stand; otherwise the projects are ranked anew.
    pub fn pop_search(&mut self)
        ensures
            final(self)@.is_popped_from(old(self)@),
    {
        self.searchbar.pop();
        if self.searchbar.content().unicode_len() == 0 {
            self.filtered_projects = copies(&self.projects);
            assert(self.searchbar@ =~= Seq::<char>::empty());
        } else {
            self.filter_projects();
        }
    }

    /// Empties the prompt: every project matches again, in the order in
    /// which the projects stand.
    pub fn clear_search(&mut self)
        ensures
            final(self)@ == old(self)@.cleared(),
    {
        self.searchbar.clear();
        self.filtered_projects = copies(&self.projects);
    }

    /// Enables the preview where it was disabled, and the other way round.
    pub fn toggle_preview(&mut self)
        ensures
            final(self)@ == old(self)@.toggled(),
    {
        self.preview.toggle();
    }
}

} // verus!
