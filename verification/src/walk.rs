//! The walk through a list of terms: one term after the other is announced,
//! resolved and shown, and the walk goes on when the operator says so.
//!
//! The walk does no work outside itself. It says what is to be done next, is
//! told how that went, and says what follows.

use crate::definition::{definition_views, Definition, DefinitionView};
use crate::error::ProgramError;
use crate::resolver::{
    lemma_reply_keeps_well_formed, Reply, ReplyView, Resolver, ResolverView, MAX_DEFINITIONS,
};
use crate::text::text_view;
use vstd::pervasive::unreached;
use vstd::prelude::*;

verus! {

/// The lines, each by its view: `None` stands for a line that could not be
/// read.
pub open spec fn line_views(lines: Seq<Option<String>>) -> Seq<Option<Seq<char>>> {
    lines.map_values(|line: Option<String>| text_view(line))
}

/// The terms, each by its view.
pub open spec fn term_views(terms: Seq<String>) -> Seq<Seq<char>> {
    terms.map_values(|term: String| term@)
}

/// The lines that remain when the first `skipped` are passed over and, of the
/// rest, those that could not be read are dropped.
pub open spec fn readable_after(lines: Seq<Option<Seq<char>>>, skipped: int) -> Seq<Seq<char>> {
    if skipped >= lines.len() {
        Seq::empty()
    } else {
        lines.skip(skipped).filter_map(|line: Option<Seq<char>>| line)
    }
}

/// Passes over the first `skipped` lines and keeps, of the rest, those that
/// could be read.
pub fn keep_readable_after(lines: &Vec<Option<String>>, skipped: usize) -> (terms: Vec<String>)
    ensures
        term_views(terms@) == readable_after(line_views(lines@), skipped as int),
        terms.len() + skipped <= lines.len() || terms.len() == 0,
{
    let mut terms: Vec<String> = Vec::new();
    if skipped >= lines.len() {
        assert(term_views(terms@) == Seq::<Seq<char>>::empty());
        return terms;
    }
    let ghost all = line_views(lines@).skip(skipped as int);
    let ghost kept = |line: Option<Seq<char>>| line;
    let mut at: usize = skipped;
    assert(all.take(0).filter_map(kept) == term_views(terms@));
    while at < lines.len()
        invariant
            skipped <= at <= lines.len(),
            all == line_views(lines@).skip(skipped as int),
            kept == (|line: Option<Seq<char>>| line),
            terms.len() <= at - skipped,
            term_views(terms@) == all.take(at - skipped).filter_map(kept),
        decreases lines.len() - at,
    {
        let ghost before = term_views(terms@);
        proof {
            assert(all.take(at + 1 - skipped).drop_last() == all.take(at - skipped));
            assert(all.take(at + 1 - skipped).last() == text_view(lines[at as int]));
        }
        match &lines[at] {
            Some(line) => {
                terms.push(line.clone());
                assert(term_views(terms@) == before + seq![line@]);
            },
            None => {},
        }
        at += 1;
    }
    assert(all.take(at - skipped) == all);
    terms
}

/// What came of the work that the walk asked for.
#[derive(Debug, PartialEq, Eq)]
pub enum Event {
    /// What was to be displayed is displayed.
    Shown,
    /// The fetch has ended, with the page or without it.
    Page(Reply),
    /// The operator has entered a line.
    Line,
    /// The console could not be read.
    NoLine,
}

/// An event, as the contracts speak of it.
pub enum EventView {
    Shown,
    Page(ReplyView),
    Line,
    NoLine,
}

impl View for Event {
    type V = EventView;

    open spec fn view(&self) -> EventView {
        match self {
            Event::Shown => EventView::Shown,
            Event::Page(reply) => EventView::Page(reply@),
            Event::Line => EventView::Line,
            Event::NoLine => EventView::NoLine,
        }
    }
}

/// The work that the walk asks for.
#[derive(Debug, PartialEq, Eq)]
pub enum Action {
    /// Display the term with its position among all terms. Answered by `Shown`.
    Announce { term: String, position: usize, total: usize },
    /// Fetch the page at the address. Answered by `Page`.
    Fetch { url: String },
    /// Display the definition. Answered by `Shown`.
    Show { definition: Definition },
    /// Prompt the operator and wait for a line. Answered by `Line` or `NoLine`.
    Prompt,
    /// End the program: every term is done.
    Finish,
    /// End the program with the error.
    Fail { error: ProgramError },
}

/// An action, as the contracts speak of it.
pub enum ActionView {
    Announce { term: Seq<char>, position: nat, total: nat },
    Fetch { url: Seq<char> },
    Show { definition: DefinitionView },
    Prompt,
    Finish,
    Fail { error: ProgramError },
}

impl View for Action {
    type V = ActionView;

    open spec fn view(&self) -> ActionView {
        match self {
            Action::Announce { term, position, total } => ActionView::Announce {
                term: term@,
                position: *position as nat,
                total: *total as nat,
            },
            Action::Fetch { url } => ActionView::Fetch { url: url@ },
            Action::Show { definition } => ActionView::Show { definition: definition@ },
            Action::Prompt => ActionView::Prompt,
            Action::Finish => ActionView::Finish,
            Action::Fail { error } => ActionView::Fail { error: *error },
        }
    }
}

/// What the walk is busy with.
enum Phase {
    /// The current term is to be announced.
    Announcing,
    /// The current term is being resolved: a page is awaited.
    Resolving(Resolver),
    /// The definitions of the current term are being displayed: the first
    /// `shown` are, the next is awaited.
    Showing { definitions: Vec<Definition>, shown: usize },
    /// The operator is to say that the walk may go on.
    Prompting,
    /// Every term is done.
    Finished,
    /// The walk has ended with an error.
    Failed(ProgramError),
}

/// A phase, as the contracts speak of it.
pub enum PhaseView {
    Announcing,
    Resolving(ResolverView),
    Showing { definitions: Seq<DefinitionView>, shown: nat },
    Prompting,
    Finished,
    Failed(ProgramError),
}

impl View for Phase {
    type V = PhaseView;

    closed spec fn view(&self) -> PhaseView {
        match self {
            Phase::Announcing => PhaseView::Announcing,
            Phase::Resolving(resolver) => PhaseView::Resolving(resolver@),
            Phase::Showing { definitions, shown } => PhaseView::Showing {
                definitions: definition_views(definitions@),
                shown: *shown as nat,
            },
            Phase::Prompting => PhaseView::Prompting,
            Phase::Finished => PhaseView::Finished,
            Phase::Failed(error) => PhaseView::Failed(*error),
        }
    }
}

/// The walk, between two pieces of work.
pub struct Walk {
    terms: Vec<String>,
    start_index: usize,
    done: usize,
    phase: Phase,
}

/// A walk, as the contracts speak of it.
pub struct WalkView {
    /// The terms to process, in order: the lines from the start position on.
    pub terms: Seq<Seq<char>>,
    /// The position of the first of them among all lines, counted from 1.
    pub start_index: nat,
    /// How many of them are done.
    pub done: nat,
    pub phase: PhaseView,
}

impl WalkView {
    /// The position of the current term among all lines, counted from 1.
    pub open spec fn current_index(self) -> nat {
        self.start_index + self.done
    }

    /// The position of the last term.
    pub open spec fn total_count(self) -> int {
        self.start_index + self.terms.len() - 1
    }

    /// Whether the walk has ended.
    pub open spec fn ended(self) -> bool {
        self.phase is Finished || self.phase is Failed
    }

    /// The walk over the terms that `lines` hold from the position
    /// `start_index` on, before anything is done.
    pub open spec fn begin(lines: Seq<Option<Seq<char>>>, start_index: nat) -> WalkView {
        let terms = readable_after(lines, start_index - 1);
        WalkView {
            terms,
            start_index,
            done: 0,
            phase: if terms.len() == 0 {
                PhaseView::Finished
            } else {
                PhaseView::Announcing
            },
        }
    }

    /// What holds of every walk: positions count from 1, and while the walk
    /// has not ended there is a current term. A resolver at work is that of
    /// the current term and wants a page; a definition to display is there.
    pub open spec fn well_formed(self) -> bool {
        &&& self.start_index >= 1
        &&& self.done <= self.terms.len()
        &&& !self.ended() ==> self.done < self.terms.len()
        &&& self.phase is Finished ==> self.done == self.terms.len()
        &&& match self.phase {
            PhaseView::Resolving(resolver) => {
                &&& resolver.well_formed()
                &&& resolver.wanted() is Some
                &&& resolver.term == self.terms[self.done as int]
            },
            PhaseView::Showing { definitions, shown } => shown < definitions.len()
                <= MAX_DEFINITIONS,
            _ => true,
        }
    }

    /// The work that the walk asks for.
    pub open spec fn pending(self) -> ActionView {
        match self.phase {
            PhaseView::Announcing => ActionView::Announce {
                term: self.terms[self.done as int],
                position: self.current_index(),
                total: self.total_count() as nat,
            },
            PhaseView::Resolving(resolver) => ActionView::Fetch { url: resolver.wanted()->0 },
            PhaseView::Showing { definitions, shown } => ActionView::Show {
                definition: definitions[shown as int],
            },
            PhaseView::Prompting => ActionView::Prompt,
            PhaseView::Finished => ActionView::Finish,
            PhaseView::Failed(error) => ActionView::Fail { error },
        }
    }

    /// The walk in another phase.
    pub open spec fn turn_to(self, phase: PhaseView) -> WalkView {
        WalkView { phase, ..self }
    }

    /// The phase that follows when the resolver was told of a page: the
    /// resolver's error ends the walk; its definitions are displayed, if there
    /// are any, before the operator is prompted; else the next page is awaited.
    pub open spec fn settled(resolver: ResolverView) -> PhaseView {
        match resolver.outcome() {
            None => PhaseView::Resolving(resolver),
            Some(Ok(definitions)) => if definitions.len() == 0 {
                PhaseView::Prompting
            } else {
                PhaseView::Showing { definitions, shown: 0 }
            },
            Some(Err(error)) => PhaseView::Failed(error),
        }
    }

    /// The walk before the next term, or at its end where no term is left.
    pub open spec fn moved_on(self) -> WalkView {
        WalkView {
            done: self.done + 1,
            phase: if self.done + 1 < self.terms.len() {
                PhaseView::Announcing
            } else {
                PhaseView::Finished
            },
            ..self
        }
    }

    /// The walk after `event`.
    ///
    /// An event that answers the work asked for moves the walk on: from the
    /// announcement of a term to its resolver, from page to page as the
    /// resolver wants them, through the definitions found, to the prompt, and
    /// from there to the next term or to the end. A page that could not be
    /// fetched or read, and a console that could not be read, end the walk
    /// with the error. Any other event leaves the walk as it is.
    pub open spec fn after(self, event: EventView) -> WalkView {
        match (self.phase, event) {
            (PhaseView::Announcing, EventView::Shown) => self.turn_to(
                PhaseView::Resolving(ResolverView::start(self.terms[self.done as int])),
            ),
            (PhaseView::Resolving(resolver), EventView::Page(reply)) => self.turn_to(
                Self::settled(resolver.after(reply)),
            ),
            (PhaseView::Showing { definitions, shown }, EventView::Shown) => if shown + 1
                < definitions.len() {
                self.turn_to(PhaseView::Showing { definitions, shown: shown + 1 })
            } else {
                self.turn_to(PhaseView::Prompting)
            },
            (PhaseView::Prompting, EventView::Line) => self.moved_on(),
            (PhaseView::Prompting, EventView::NoLine) => self.turn_to(
                PhaseView::Failed(ProgramError::Io),
            ),
            _ => self,
        }
    }

    /// The event that answers the work asked for where pages come from `web`,
    /// which says for each address what comes of fetching it, and where
    /// neither the display nor the operator fails.
    pub open spec fn answered(self, web: spec_fn(Seq<char>) -> ReplyView) -> EventView {
        match self.pending() {
            ActionView::Fetch { url } => EventView::Page(web(url)),
            ActionView::Prompt => EventView::Line,
            _ => EventView::Shown,
        }
    }

    /// The walk after up to `steps` pieces of work on `web`: each piece of
    /// work that the walk asks for is done, and the walk is told of it, until
    /// the walk has ended.
    pub open spec fn driven(self, web: spec_fn(Seq<char>) -> ReplyView, steps: nat) -> WalkView
        decreases steps,
    {
        if steps == 0 || self.ended() {
            self
        } else {
            self.after(self.answered(web)).driven(web, (steps - 1) as nat)
        }
    }

    /// The work done in the course of up to `steps` pieces of work on `web`,
    /// in the order in which the walk asked for it.
    pub open spec fn work(self, web: spec_fn(Seq<char>) -> ReplyView, steps: nat) -> Seq<
        ActionView,
    >
        decreases steps,
    {
        if steps == 0 || self.ended() {
            Seq::empty()
        } else {
            seq![self.pending()] + self.after(self.answered(web)).work(web, (steps - 1) as nat)
        }
    }

    /// The walk after the events, each as it came.
    pub open spec fn after_all(self, events: Seq<EventView>) -> WalkView
        decreases events.len(),
    {
        if events.len() == 0 {
            self
        } else {
            self.after(events.first()).after_all(events.drop_first())
        }
    }
}

impl View for Walk {
    type V = WalkView;

    closed spec fn view(&self) -> WalkView {
        WalkView {
            terms: term_views(self.terms@),
            start_index: self.start_index as nat,
            done: self.done as nat,
            phase: self.phase@,
        }
    }
}

impl Walk {
    #[verifier::type_invariant]
    spec fn sound(self) -> bool {
        self@.well_formed() && self@.total_count() <= usize::MAX
    }

    /// Begins the walk over the lines of a term file, at the position
    /// `start_index`, counted from 1. A line that could not be read is `None`.
    ///
    /// A position below 1 is refused with `Arg`. The first `start_index - 1`
    /// lines are passed over, and of the rest the unreadable ones are dropped.
    /// A walk that has begun has not yet asked for any work.
    pub fn new(lines: &Vec<Option<String>>, start_index: usize) -> (begun: Result<
        Walk,
        ProgramError,
    >)
        ensures
            start_index < 1 <==> begun is Err,
            match begun {
                Ok(walk) => walk@ == WalkView::begin(line_views(lines@), start_index as nat)
                    && walk@.well_formed(),
                Err(error) => error == ProgramError::Arg,
            },
    {
        if start_index < 1 {
            return Err(ProgramError::Arg);
        }
        let terms = keep_readable_after(lines, start_index - 1);
        let phase = if terms.len() == 0 {
            Phase::Finished
        } else {
            Phase::Announcing
        };
        Ok(Walk { terms, start_index, done: 0, phase })
    }

    /// The work that the walk asks for. The position announced with a term
    /// lies between the start position and the total.
    pub fn pending(&self) -> (action: Action)
        ensures
            action@ == self@.pending(),
            self@.well_formed(),
            match action {
                Action::Announce { term, position, total } => self@.start_index <= position
                    <= total,
                _ => true,
            },
    {
        proof {
            use_type_invariant(self);
        }
        match &self.phase {
            Phase::Announcing => Action::Announce {
                term: self.terms[self.done].clone(),
                position: self.start_index + self.done,
                total: self.start_index - 1 + self.terms.len(),
            },
            Phase::Resolving(resolver) => match resolver.wanted() {
                Some(url) => Action::Fetch { url },
                None => unreached(),
            },
            Phase::Showing { definitions, shown } => Action::Show {
                definition: definitions[*shown].clone(),
            },
            Phase::Prompting => Action::Prompt,
            Phase::Finished => Action::Finish,
            Phase::Failed(error) => Action::Fail { error: *error },
        }
    }

    /// Tells the walk what came of the work it asked for.
    pub fn step(self, event: Event) -> (next: Walk)
        ensures
            next@ == self@.after(event@),
            next@.well_formed(),
    {
        proof {
            use_type_invariant(&self);
        }
        let Walk { terms, start_index, done, phase } = self;
        match (phase, event) {
            (Phase::Announcing, Event::Shown) => {
                let resolver = Resolver::new(terms[done].as_str());
                Walk { terms, start_index, done, phase: Phase::Resolving(resolver) }
            },
            (Phase::Resolving(resolver), Event::Page(reply)) => {
                let resolver = resolver.answer(reply);
                let phase = match resolver.outcome() {
                    None => Phase::Resolving(resolver),
                    Some(Ok(definitions)) => if definitions.len() == 0 {
                        Phase::Prompting
                    } else {
                        Phase::Showing { definitions, shown: 0 }
                    },
                    Some(Err(error)) => Phase::Failed(error),
                };
                Walk { terms, start_index, done, phase }
            },
            (Phase::Showing { definitions, shown }, Event::Shown) => {
                if shown + 1 < definitions.len() {
                    Walk {
                        terms,
                        start_index,
                        done,
                        phase: Phase::Showing { definitions, shown: shown + 1 },
                    }
                } else {
                    Walk { terms, start_index, done, phase: Phase::Prompting }
                }
            },
            (Phase::Prompting, Event::Line) => {
                let phase = if done + 1 < terms.len() {
                    Phase::Announcing
                } else {
                    Phase::Finished
                };
                Walk { terms, start_index, done: done + 1, phase }
            },
            (Phase::Prompting, Event::NoLine) => Walk {
                terms,
                start_index,
                done,
                phase: Phase::Failed(ProgramError::Io),
            },
            (phase, _) => Walk { terms, start_index, done, phase },
        }
    }
}


/// A walk that begins at a position from 1 on is well-formed, and asks for no
/// page before its first term is announced.
pub proof fn lemma_begin_well_formed(lines: Seq<Option<Seq<char>>>, start_index: nat)
    requires
        start_index >= 1,
    ensures
        WalkView::begin(lines, start_index).well_formed(),
        !(WalkView::begin(lines, start_index).pending() is Fetch),
{
}

/// An event leaves a well-formed walk well-formed.
pub proof fn lemma_event_keeps_well_formed(walk: WalkView, event: EventView)
    requires
        walk.well_formed(),
    ensures
        walk.after(event).well_formed(),
{
    if let PhaseView::Resolving(resolver) = walk.phase {
        if let EventView::Page(reply) = event {
            lemma_reply_keeps_well_formed(resolver, reply);
        }
    }
}

/// Whatever comes of the work asked for, the walk stays well-formed.
pub proof fn lemma_always_well_formed(walk: WalkView, events: Seq<EventView>)
    requires
        walk.well_formed(),
    ensures
        walk.after_all(events).well_formed(),
    decreases events.len(),
{
    if events.len() > 0 {
        lemma_event_keeps_well_formed(walk, events.first());
        lemma_always_well_formed(walk.after(events.first()), events.drop_first());
    }
}

/// While the walk has not ended, the position of the current term lies
/// between the start position and the total.
pub proof fn lemma_position_in_range(walk: WalkView)
    requires
        walk.well_formed(),
        !walk.ended(),
    ensures
        walk.start_index <= walk.current_index() <= walk.total_count(),
{
}

/// The terms, the start position and the total are fixed when the walk
/// begins. The position moves on by one when the operator answers the prompt,
/// and at no other time.
pub proof fn lemma_position_moves_by_one(walk: WalkView, event: EventView)
    ensures
        walk.after(event).terms == walk.terms,
        walk.after(event).start_index == walk.start_index,
        walk.after(event).total_count() == walk.total_count(),
        walk.after(event).current_index() == if walk.phase is Prompting && event is Line {
            walk.current_index() + 1
        } else {
            walk.current_index()
        },
{
}

/// The first error ends the walk: whatever page could not be fetched or read,
/// the walk fails with the resolver's error and asks for nothing more.
pub proof fn lemma_error_ends_walk(walk: WalkView, reply: ReplyView, error: ProgramError)
    requires
        walk.phase matches PhaseView::Resolving(resolver) && resolver.after(reply).outcome()
            == Some(Err::<Seq<DefinitionView>, ProgramError>(error)),
    ensures
        walk.after(EventView::Page(reply)).pending() == (ActionView::Fail { error }),
        walk.after(EventView::Page(reply)).ended(),
{
}

/// A walk that has ended stays as it is, whatever it is told.
pub proof fn lemma_ended_stays(walk: WalkView, events: Seq<EventView>)
    requires
        walk.ended(),
    ensures
        walk.after_all(events) == walk,
    decreases events.len(),
{
    if events.len() > 0 {
        lemma_ended_stays(walk, events.drop_first());
    }
}

} // verus!
