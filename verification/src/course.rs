//! The course of a whole walk on a web that answers every fetch: the work
//! that is done from the first term to the last, and how the walk ends.

use crate::definition::DefinitionView;
use crate::error::ProgramError;
use crate::links::LinkView;
use crate::resolver::{
    definition_replied, definitions_behind, glossary_links, lemma_definitions_behind,
    lemma_first_error_stands, lemma_followed_links, links_replied, resolved, search_address,
    ReplyView, ResolverView, StageView, MAX_DEFINITIONS,
};
use crate::walk::{
    lemma_begin_well_formed, lemma_event_keeps_well_formed, readable_after, ActionView, EventView,
    PhaseView, WalkView,
};
use vstd::prelude::*;

verus! {

/// The pieces of work that a term takes at most: its announcement, the fetch
/// of the search, a fetch and a display for each definition, and the prompt.
pub const WORK_PER_TERM: usize = 3 + 2 * MAX_DEFINITIONS;

/// The first error that the terms meet on `web`, resolved in their order.
/// `None` where every term has its definitions.
pub open spec fn first_error(
    terms: Seq<Seq<char>>,
    web: spec_fn(Seq<char>) -> ReplyView,
) -> Option<ProgramError>
    decreases terms.len(),
{
    if terms.len() == 0 {
        None
    } else {
        match resolved(terms.first(), web) {
            Ok(_) => first_error(terms.drop_first(), web),
            Err(error) => Some(error),
        }
    }
}

/// The fetches of the pages behind `links`, one after the other: up to the
/// first page that cannot be fetched or read, and no further.
pub open spec fn entries_fetched(
    links: Seq<LinkView>,
    web: spec_fn(Seq<char>) -> ReplyView,
) -> Seq<ActionView>
    decreases links.len(),
{
    if links.len() == 0 {
        Seq::empty()
    } else if definition_replied(web(links.first().href)) is Ok {
        seq![ActionView::Fetch { url: links.first().href }] + entries_fetched(
            links.drop_first(),
            web,
        )
    } else {
        seq![ActionView::Fetch { url: links.first().href }]
    }
}

/// The displays of `definitions`, one after the other.
pub open spec fn definitions_shown(definitions: Seq<DefinitionView>) -> Seq<ActionView> {
    definitions.map_values(|definition: DefinitionView| ActionView::Show { definition })
}

/// The work that one term takes on `web`: the term is announced with its
/// position, and the search for it is fetched; then the page of each link
/// that is followed is fetched, up to the first that cannot be fetched or
/// read; and where the term has its definitions, each is displayed, and the
/// operator is prompted.
pub open spec fn term_work(
    term: Seq<char>,
    position: nat,
    total: nat,
    web: spec_fn(Seq<char>) -> ReplyView,
) -> Seq<ActionView> {
    let begun = seq![
        ActionView::Announce { term, position, total },
        ActionView::Fetch { url: search_address(term) },
    ];
    match links_replied(web(search_address(term))) {
        Ok(links) => {
            let followed = glossary_links(links);
            let fetched = begun + entries_fetched(followed, web);
            match definitions_behind(followed, web) {
                Ok(definitions) => fetched + definitions_shown(definitions) + seq![
                    ActionView::Prompt,
                ],
                Err(_) => fetched,
            }
        },
        Err(_) => begun,
    }
}

/// The work that the terms take on `web`, the first of them at `position`:
/// the work of each term in turn, up to the first term that meets an error.
pub open spec fn walk_work(
    terms: Seq<Seq<char>>,
    position: nat,
    total: nat,
    web: spec_fn(Seq<char>) -> ReplyView,
) -> Seq<ActionView>
    decreases terms.len(),
{
    if terms.len() == 0 {
        Seq::empty()
    } else if resolved(terms.first(), web) is Ok {
        term_work(terms.first(), position, total, web) + walk_work(
            terms.drop_first(),
            position + 1,
            total,
            web,
        )
    } else {
        term_work(terms.first(), position, total, web)
    }
}

/// A walk that has ended asks for no work and stays as it is.
pub proof fn lemma_ended_walk_rests(
    walk: WalkView,
    web: spec_fn(Seq<char>) -> ReplyView,
    steps: nat,
)
    requires
        walk.ended(),
    ensures
        walk.driven(web, steps) == walk,
        walk.work(web, steps) == Seq::<ActionView>::empty(),
{
}

/// Work done in two parts is the same work.
pub proof fn lemma_driven_in_parts(
    walk: WalkView,
    web: spec_fn(Seq<char>) -> ReplyView,
    first: nat,
    more: nat,
)
    ensures
        walk.driven(web, first + more) == walk.driven(web, first).driven(web, more),
        walk.work(web, first + more) == walk.work(web, first) + walk.driven(web, first).work(
            web,
            more,
        ),
    decreases first,
{
    if first > 0 && !walk.ended() {
        let next = walk.after(walk.answered(web));
        lemma_driven_in_parts(next, web, (first - 1) as nat, more);
        assert(walk.work(web, first + more) == seq![walk.pending()] + (next.work(
            web,
            (first - 1) as nat,
        ) + next.driven(web, (first - 1) as nat).work(web, more)));
        assert(walk.work(web, first + more) == walk.work(web, first) + walk.driven(
            web,
            first,
        ).work(web, more));
    } else {
        assert(walk.work(web, first) + walk.work(web, more) == walk.work(web, more));
    }
}

/// One fetch of the page of an entry. The walk asks for the page behind the
/// next link and goes on as it is told: with the definition found, or to its
/// end with the error, which is then the error of all the links.
proof fn lemma_entry_is_fetched(walk: WalkView, web: spec_fn(Seq<char>) -> ReplyView, steps: nat)
    requires
        walk.well_formed(),
        steps >= 1,
        ({
            &&& walk.phase matches PhaseView::Resolving(resolver)
            &&& resolver.stage matches StageView::Collecting { links, found }
            &&& found.len() < links.len()
            &&& definitions_behind(links.take(found.len() as int), web) == Ok::<
                Seq<DefinitionView>,
                ProgramError,
            >(found)
        }),
    ensures
        ({
            &&& walk.phase matches PhaseView::Resolving(resolver)
            &&& resolver.stage matches StageView::Collecting { links, found }
            &&& ({
                let length = found.len() as int;
                let reply = web(links[length].href);
                let fetch = seq![ActionView::Fetch { url: links[length].href }];
                let next = walk.after(EventView::Page(reply));
                &&& next.well_formed()
                &&& walk.driven(web, steps) == next.driven(web, (steps - 1) as nat)
                &&& walk.work(web, steps) == fetch + next.work(web, (steps - 1) as nat)
                &&& match definition_replied(reply) {
                    Ok(definition) => {
                        &&& definitions_behind(links.take(length + 1), web) == Ok::<
                            Seq<DefinitionView>,
                            ProgramError,
                        >(found.push(definition))
                        &&& entries_fetched(links.skip(length), web) == fetch + entries_fetched(
                            links.skip(length + 1),
                            web,
                        )
                    },
                    Err(error) => {
                        &&& definitions_behind(links, web) == Err::<
                            Seq<DefinitionView>,
                            ProgramError,
                        >(error)
                        &&& entries_fetched(links.skip(length), web) == fetch
                        &&& next == walk.turn_to(PhaseView::Failed(error))
                    },
                }
            })
        }),
{
    if let PhaseView::Resolving(resolver) = walk.phase {
        if let StageView::Collecting { links, found } = resolver.stage {
            let length = found.len() as int;
            let reply = web(links[length].href);
            assert(walk.answered(web) == EventView::Page(reply));
            assert(links.take(length + 1).drop_last() == links.take(length));
            assert(links.take(length + 1).last() == links[length]);
            assert(links.skip(length).first() == links[length]);
            assert(links.skip(length).drop_first() == links.skip(length + 1));
            lemma_event_keeps_well_formed(walk, EventView::Page(reply));
            if let Err(error) = definition_replied(reply) {
                lemma_first_error_stands(links, web, length + 1, error);
            }
        }
    }
}

/// Where every page behind the links that are left can be fetched and read,
/// the walk fetches them one after the other and then turns to the display of
/// the definitions.
proof fn lemma_entries_are_read(walk: WalkView, web: spec_fn(Seq<char>) -> ReplyView)
    requires
        walk.well_formed(),
        ({
            &&& walk.phase matches PhaseView::Resolving(resolver)
            &&& resolver.stage matches StageView::Collecting { links, found }
            &&& found.len() < links.len()
            &&& definitions_behind(links.take(found.len() as int), web) == Ok::<
                Seq<DefinitionView>,
                ProgramError,
            >(found)
            &&& definitions_behind(links, web) is Ok
        }),
    ensures
        ({
            &&& walk.phase matches PhaseView::Resolving(resolver)
            &&& resolver.stage matches StageView::Collecting { links, found }
            &&& definitions_behind(links, web) matches Ok(definitions)
            &&& walk.driven(web, (links.len() - found.len()) as nat) == walk.turn_to(
                PhaseView::Showing { definitions, shown: 0 },
            )
            &&& walk.work(web, (links.len() - found.len()) as nat) == entries_fetched(
                links.skip(found.len() as int),
                web,
            )
        }),
    decreases
            match walk.phase {
                PhaseView::Resolving(
                    ResolverView { stage: StageView::Collecting { links, found }, .. },
                ) => links.len() - found.len(),
                _ => 0,
            },
{
    if let PhaseView::Resolving(resolver) = walk.phase {
        if let StageView::Collecting { links, found } = resolver.stage {
            let length = found.len() as int;
            let next = walk.after(EventView::Page(web(links[length].href)));
            lemma_entry_is_fetched(walk, web, (links.len() - length) as nat);
            if length + 1 == links.len() {
                assert(links.take(length + 1) == links);
                assert(next.work(web, 0) == Seq::<ActionView>::empty());
                assert(entries_fetched(links.skip(length + 1), web) == Seq::<
                    ActionView,
                >::empty());
            } else {
                lemma_entries_are_read(next, web);
            }
        }
    }
}

/// Where a page behind the links that are left cannot be fetched or read, the
/// walk fails with the error of the first such page.
proof fn lemma_entries_fail(
    walk: WalkView,
    web: spec_fn(Seq<char>) -> ReplyView,
    steps: nat,
    error: ProgramError,
)
    requires
        walk.well_formed(),
        ({
            &&& walk.phase matches PhaseView::Resolving(resolver)
            &&& resolver.stage matches StageView::Collecting { links, found }
            &&& found.len() < links.len()
            &&& links.len() - found.len() <= steps
            &&& definitions_behind(links.take(found.len() as int), web) == Ok::<
                Seq<DefinitionView>,
                ProgramError,
            >(found)
            &&& definitions_behind(links, web) == Err::<Seq<DefinitionView>, ProgramError>(
                error,
            )
        }),
    ensures
        walk.driven(web, steps) == walk.turn_to(PhaseView::Failed(error)),
        ({
            &&& walk.phase matches PhaseView::Resolving(resolver)
            &&& resolver.stage matches StageView::Collecting { links, found }
            &&& walk.work(web, steps) == entries_fetched(links.skip(found.len() as int), web)
        }),
    decreases steps,
{
    if let PhaseView::Resolving(resolver) = walk.phase {
        if let StageView::Collecting { links, found } = resolver.stage {
            let length = found.len() as int;
            let reply = web(links[length].href);
            let next = walk.after(EventView::Page(reply));
            lemma_entry_is_fetched(walk, web, steps);
            if definition_replied(reply) is Err {
                lemma_ended_walk_rests(next, web, (steps - 1) as nat);
                assert(walk.work(web, steps) == seq![walk.pending()]);
            } else if length + 1 == links.len() {
                assert(links.take(length + 1) == links);
            } else {
                lemma_entries_fail(next, web, (steps - 1) as nat, error);
            }
        }
    }
}

/// The definitions that are to be displayed are displayed one after the
/// other, and then the operator is prompted.
proof fn lemma_definitions_are_shown(walk: WalkView, web: spec_fn(Seq<char>) -> ReplyView)
    requires
        ({
            &&& walk.phase matches PhaseView::Showing { definitions, shown }
            &&& shown < definitions.len()
        }),
    ensures
        ({
            &&& walk.phase matches PhaseView::Showing { definitions, shown }
            &&& walk.driven(web, (definitions.len() - shown) as nat) == walk.turn_to(
                PhaseView::Prompting,
            )
            &&& walk.work(web, (definitions.len() - shown) as nat) == definitions_shown(
                definitions.skip(shown as int),
            )
        }),
    decreases
            match walk.phase {
                PhaseView::Showing { definitions, shown } => definitions.len() - shown,
                _ => 0,
            },
{
    if let PhaseView::Showing { definitions, shown } = walk.phase {
        let next = walk.after(EventView::Shown);
        assert(walk.driven(web, (definitions.len() - shown) as nat) == next.driven(
            web,
            (definitions.len() - shown - 1) as nat,
        ));
        assert(walk.work(web, (definitions.len() - shown) as nat) == seq![walk.pending()]
            + next.work(web, (definitions.len() - shown - 1) as nat));
        if shown + 1 < definitions.len() {
            lemma_definitions_are_shown(next, web);
        }
        assert(definitions_shown(definitions.skip(shown as int)) == seq![walk.pending()]
            + definitions_shown(definitions.skip(shown as int + 1)));
    }
}

/// The work of one term. Where the term has its definitions on `web`, the
/// walk announces it, fetches the search and the page of each link that is
/// followed, displays each definition and prompts the operator, and then
/// stands before the next term. Where the term meets an error, the walk fails
/// with it.
pub proof fn lemma_term_is_done(walk: WalkView, web: spec_fn(Seq<char>) -> ReplyView)
    requires
        walk.well_formed(),
        walk.phase is Announcing,
    ensures
        ({
            let term = walk.terms[walk.done as int];
            let work = term_work(term, walk.current_index(), walk.total_count() as nat, web);
            match resolved(term, web) {
                Ok(definitions) => {
                    let steps = (3 + 2 * definitions.len()) as nat;
                    &&& definitions.len() <= MAX_DEFINITIONS
                    &&& walk.work(web, steps) == work
                    &&& walk.driven(web, steps) == walk.moved_on()
                },
                Err(error) => {
                    let steps = WORK_PER_TERM as nat;
                    &&& walk.work(web, steps) == work
                    &&& walk.driven(web, steps) == walk.turn_to(PhaseView::Failed(error))
                },
            }
        }),
{
    let term = walk.terms[walk.done as int];
    let announced = walk.after(EventView::Shown);
    let reply = web(search_address(term));
    let searched = announced.after(EventView::Page(reply));
    let begun = seq![walk.pending(), announced.pending()];
    lemma_event_keeps_well_formed(walk, EventView::Shown);
    lemma_event_keeps_well_formed(announced, EventView::Page(reply));
    assert(walk.answered(web) == EventView::Shown);
    assert(announced.answered(web) == EventView::Page(reply));
    assert forall|steps: nat| steps >= 2 implies #[trigger] walk.driven(web, steps)
        == searched.driven(web, (steps - 2) as nat) && walk.work(web, steps) == begun
        + searched.work(web, (steps - 2) as nat) by {
        assert(walk.driven(web, steps) == announced.driven(web, (steps - 1) as nat));
        assert(walk.work(web, steps) == seq![walk.pending()] + announced.work(
            web,
            (steps - 1) as nat,
        ));
        assert(announced.work(web, (steps - 1) as nat) == seq![announced.pending()]
            + searched.work(web, (steps - 2) as nat));
    }
    match links_replied(reply) {
        Ok(links) => {
            let followed = glossary_links(links);
            lemma_followed_links(links);
            lemma_definitions_behind(followed, web);
            assert(followed.take(0) == Seq::<LinkView>::empty());
            assert(followed.skip(0) == followed);
            match definitions_behind(followed, web) {
                Ok(definitions) => {
                    let length = definitions.len();
                    let steps = (3 + 2 * length) as nat;
                    let prompting = walk.turn_to(PhaseView::Prompting);
                    assert(walk.driven(web, steps) == searched.driven(web, (steps - 2) as nat));
                    assert(prompting.driven(web, 1) == walk.moved_on() && prompting.work(web, 1)
                        == seq![ActionView::Prompt]) by {
                        let next = prompting.after(EventView::Line);
                        assert(prompting.answered(web) == EventView::Line);
                        assert(next.driven(web, 0) == next);
                        assert(next.work(web, 0) == Seq::<ActionView>::empty());
                        assert(prompting.work(web, 1) == seq![prompting.pending()] + next.work(
                            web,
                            0,
                        ));
                    }
                    if length == 0 {
                        assert(searched == prompting);
                        assert(definitions_shown(definitions) == Seq::<ActionView>::empty());
                    } else {
                        let showing = walk.turn_to(
                            PhaseView::Showing { definitions, shown: 0 },
                        );
                        lemma_entries_are_read(searched, web);
                        lemma_definitions_are_shown(showing, web);
                        lemma_driven_in_parts(searched, web, length, length + 1);
                        lemma_driven_in_parts(showing, web, length, 1);
                        assert(definitions.skip(0) == definitions);
                    }
                },
                Err(error) => {
                    let steps = WORK_PER_TERM as nat;
                    assert(walk.driven(web, steps) == searched.driven(web, (steps - 2) as nat));
                    lemma_entries_fail(searched, web, (steps - 2) as nat, error);
                },
            }
        },
        Err(error) => {
            let steps = WORK_PER_TERM as nat;
            assert(walk.driven(web, steps) == searched.driven(web, (steps - 2) as nat));
            lemma_ended_walk_rests(searched, web, (steps - 2) as nat);
            assert(begun + Seq::<ActionView>::empty() == begun);
        },
    }
}

/// A well-formed walk that moves on to the next term is well-formed.
proof fn lemma_moved_on_well_formed(walk: WalkView)
    requires
        walk.well_formed(),
        !walk.ended(),
    ensures
        walk.moved_on().well_formed(),
        walk.moved_on().phase is Announcing || walk.moved_on().phase is Finished,
        walk.moved_on().terms == walk.terms,
        walk.moved_on().done == walk.done + 1,
{
}

/// The rest of a walk that stands before a term. The work done is the work
/// of the terms that are left, each in its turn, up to the first term that
/// meets an error: the terms after that one are not begun. Where every term
/// has its definitions on `web`, the walk finishes; otherwise it fails with
/// the first error. `WORK_PER_TERM` pieces of work for each term are enough.
pub proof fn lemma_walk_ends(walk: WalkView, web: spec_fn(Seq<char>) -> ReplyView)
    requires
        walk.well_formed(),
        walk.phase is Announcing || walk.phase is Finished,
    ensures
        ({
            let left = walk.terms.skip(walk.done as int);
            let steps = (WORK_PER_TERM * left.len()) as nat;
            &&& walk.work(web, steps) == walk_work(
                left,
                walk.current_index(),
                walk.total_count() as nat,
                web,
            )
            &&& walk.driven(web, steps).phase == (match first_error(left, web) {
                Some(error) => PhaseView::Failed(error),
                None => PhaseView::Finished,
            })
        }),
    decreases walk.terms.len() - walk.done,
{
    let left = walk.terms.skip(walk.done as int);
    let steps = (WORK_PER_TERM * (walk.terms.len() - walk.done)) as nat;
    if walk.phase is Finished {
        assert(left.len() == 0);
    } else {
        let later = (WORK_PER_TERM * (walk.terms.len() - walk.done - 1)) as nat;
        assert(steps == WORK_PER_TERM + later) by (nonlinear_arith)
            requires
                steps == WORK_PER_TERM * (walk.terms.len() - walk.done),
                later == WORK_PER_TERM * (walk.terms.len() - walk.done - 1),
        ;
        assert(left.first() == walk.terms[walk.done as int]);
        assert(left.drop_first() == walk.terms.skip(walk.done as int + 1));
        lemma_term_is_done(walk, web);
        match resolved(walk.terms[walk.done as int], web) {
            Ok(definitions) => {
                let used = (3 + 2 * definitions.len()) as nat;
                let next = walk.moved_on();
                lemma_moved_on_well_formed(walk);
                lemma_walk_ends(next, web);
                assert(next.driven(web, later).ended());
                lemma_driven_in_parts(walk, web, used, (steps - used) as nat);
                lemma_driven_in_parts(next, web, later, (steps - used - later) as nat);
                lemma_ended_walk_rests(
                    next.driven(web, later),
                    web,
                    (steps - used - later) as nat,
                );
                assert(next.work(web, (steps - used) as nat) == next.work(web, later));
            },
            Err(error) => {
                lemma_driven_in_parts(walk, web, WORK_PER_TERM as nat, later);
                lemma_ended_walk_rests(walk.turn_to(PhaseView::Failed(error)), web, later);
                assert(walk.work(web, steps) == walk.work(web, WORK_PER_TERM as nat));
            },
        }
    }
}

/// The walk over a term file, from its beginning to its end. The work done
/// is the work of the terms from the start position on, each in its turn and
/// with its position, up to the first term that meets an error; the lines
/// before the start position play no part in it. The walk finishes where
/// every term has its definitions on `web`, and fails with the first error
/// otherwise.
pub proof fn lemma_walk_from_beginning(
    lines: Seq<Option<Seq<char>>>,
    start_index: nat,
    web: spec_fn(Seq<char>) -> ReplyView,
)
    requires
        start_index >= 1,
    ensures
        ({
            let terms = readable_after(lines, start_index - 1);
            let walk = WalkView::begin(lines, start_index);
            let steps = (WORK_PER_TERM * terms.len()) as nat;
            &&& walk.work(web, steps) == walk_work(
                terms,
                start_index,
                (start_index + terms.len() - 1) as nat,
                web,
            )
            &&& walk.driven(web, steps).phase == (match first_error(terms, web) {
                Some(error) => PhaseView::Failed(error),
                None => PhaseView::Finished,
            })
        }),
{
    let walk = WalkView::begin(lines, start_index);
    lemma_begin_well_formed(lines, start_index);
    assert(walk.terms.skip(0) == walk.terms);
    lemma_walk_ends(walk, web);
}

} // verus!
