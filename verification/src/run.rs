//! Whole runs of a task, and what holds of all of them.

use vstd::prelude::*;

use crate::document::{extracted, json_url, lookup_in, resource_url};
use crate::json::parsed_json;
use crate::page::page_text;
use crate::task::{
    accepts, begin, next, ActionModel, EventModel, Progress, Source, TaskModel, MAX_ATTEMPTS,
};

verus! {

/// The state of a task after some events, and all that it asked for; nothing where one of
/// the events is none that the task waited for.
pub open spec fn run(resource_name: Seq<char>, id: u64, events: Seq<EventModel>) -> Option<
    (TaskModel, Seq<ActionModel>),
>
    decreases events.len(),
{
    if events.len() == 0 {
        let (task, action) = begin(resource_name, id);
        Some((task, seq![action]))
    } else {
        match run(resource_name, id, events.drop_last()) {
            Some((task, actions)) => if accepts(task, events.last()) {
                let (then, action) = next(task, events.last());
                Some((then, actions.push(action)))
            } else {
                None
            },
            None => None,
        }
    }
}

/// How many of the actions send a record.
pub open spec fn sends(actions: Seq<ActionModel>) -> nat
    decreases actions.len(),
{
    if actions.len() == 0 {
        0
    } else {
        sends(actions.drop_last()) + if actions.last() is Send {
            1nat
        } else {
            0nat
        }
    }
}

/// How many of the actions ask for what is at an address.
pub open spec fn requests(actions: Seq<ActionModel>, address: Seq<char>) -> nat
    decreases actions.len(),
{
    if actions.len() == 0 {
        0
    } else {
        requests(actions.drop_last(), address) + match actions.last() {
            ActionModel::Request { url, .. } => if url == address {
                1nat
            } else {
                0nat
            },
            _ => 0nat,
        }
    }
}

/// How many seconds the actions pause in all.
pub open spec fn paused(actions: Seq<ActionModel>) -> nat
    decreases actions.len(),
{
    if actions.len() == 0 {
        0
    } else {
        paused(actions.drop_last()) + match actions.last() {
            ActionModel::Pause { secs } => secs as nat,
            _ => 0nat,
        }
    }
}

/// How many events a task can still wait for.
spec fn steps_left(progress: Progress) -> int {
    match progress {
        Progress::Requested { source, attempt } => to_go(source, attempt),
        Progress::Answered { source, attempt } => to_go(source, attempt) - 1,
        Progress::Pausing { source, attempt } => to_go(source, attempt) - 2,
        Progress::Finished => 0,
    }
}

spec fn to_go(source: Source, attempt: u64) -> int {
    3 * (MAX_ATTEMPTS + 1 - attempt) + match source {
        Source::Data => 8int,
        Source::Page => 0int,
    }
}

proof fn lemma_urls_differ(resource_name: Seq<char>)
    ensures
        json_url(resource_name) != resource_url(resource_name),
{
    reveal_strlit("https://dbpedia.org/data/");
    reveal_strlit("http://dbpedia.org/resource/");
    assert(json_url(resource_name)[4] == 's');
    assert(resource_url(resource_name)[4] == ':');
}

proof fn lemma_run(resource_name: Seq<char>, id: u64, events: Seq<EventModel>)
    ensures
        run(resource_name, id, events) matches Some((task, actions)) ==> {
            &&& task.resource_name == resource_name
            &&& task.id == id
            &&& task.progress.valid()
            &&& actions.len() == events.len() + 1
            &&& events.len() + steps_left(task.progress) <= 17
            &&& sends(actions) == (if task.progress is Finished {
                1nat
            } else {
                0nat
            })
            &&& task.progress is Finished <==> actions.last() is Send
            &&& actions.last() matches ActionModel::Send { id: sent, .. } ==> sent == id
        },
    decreases events.len(),
{
    if events.len() == 0 {
        let (task, action) = begin(resource_name, id);
        let actions = seq![action];
        assert(actions.drop_last() =~= Seq::<ActionModel>::empty());
        reveal_with_fuel(sends, 2);
    } else {
        lemma_run(resource_name, id, events.drop_last());
        if let Some((task, actions)) = run(resource_name, id, events.drop_last()) {
            if accepts(task, events.last()) {
                let (then, action) = next(task, events.last());
                assert(actions.push(action).drop_last() =~= actions);
                assert(actions.push(action).last() == action);
            }
        }
    }
}

/// A task waits for at most 17 events, and until it has handed out its record there is
/// always one that it waits for.
pub proof fn law_every_run_ends(resource_name: Seq<char>, id: u64, events: Seq<EventModel>)
    ensures
        run(resource_name, id, events) matches Some((task, _)) ==> {
            &&& events.len() <= 17
            &&& task.progress is Finished <==> (forall|event: EventModel| !accepts(task, event))
        },
{
    lemma_run(resource_name, id, events);
    if let Some((task, _)) = run(resource_name, id, events) {
        assert(task.progress is Requested ==> accepts(task, EventModel::TimedOut));
        assert(task.progress is Answered ==> accepts(task, EventModel::NoBody));
        assert(task.progress is Pausing ==> accepts(task, EventModel::Paused));
    }
}

/// A task sends one record, with the identifier of its entity, as the last thing it does.
pub proof fn law_one_record(resource_name: Seq<char>, id: u64, events: Seq<EventModel>)
    ensures
        run(resource_name, id, events) matches Some((task, actions)) ==> {
            &&& sends(actions) <= 1
            &&& task.progress is Finished <==> sends(actions) == 1
            &&& sends(actions) == 1 ==> (actions.last() matches ActionModel::Send { id: sent, .. }
                && sent == id)
        },
{
    lemma_run(resource_name, id, events);
}

/// A run begins as its task begins, and goes on event by event as its task does, as long as
/// each event is one that the task waits for.
pub proof fn law_run_goes_event_by_event(
    resource_name: Seq<char>,
    id: u64,
    events: Seq<EventModel>,
    event: EventModel,
)
    ensures
        run(resource_name, id, Seq::empty()) == Some(
            (begin(resource_name, id).0, seq![begin(resource_name, id).1]),
        ),
        run(resource_name, id, events.push(event)) == match run(resource_name, id, events) {
            Some((task, actions)) => if accepts(task, event) {
                Some((next(task, event).0, actions.push(next(task, event).1)))
            } else {
                None
            },
            None => None,
        },
{
    assert(events.push(event).drop_last() =~= events);
}

/// A body is read only right after an answer with a status from 200 to 299, and after such an
/// answer the body is what is asked for.
pub proof fn law_bodies_follow_success(resource_name: Seq<char>, id: u64, events: Seq<EventModel>)
    ensures
        run(resource_name, id, events) matches Some((task, actions)) ==> {
            &&& events.len() > 0 && events.last() is Body ==> {
                &&& events.len() > 1
                &&& events[events.len() - 2] matches EventModel::Answer(status)
                &&& 200 <= status < 300
            }
            &&& actions.last() is ReadBody <==> {
                &&& events.len() > 0
                &&& events.last() matches EventModel::Answer(status)
                &&& 200 <= status < 300
            }
            &&& task.progress is Answered <==> actions.last() is ReadBody
        },
    decreases events.len(),
{
    lemma_run(resource_name, id, events);
    if events.len() > 0 {
        let before = events.drop_last();
        law_bodies_follow_success(resource_name, id, before);
        lemma_run(resource_name, id, before);
        if events.len() > 1 {
            assert(before.last() == events[events.len() - 2]);
        }
    }
}

/// The document from a source that a run has read, if it has read one, with the number of the
/// attempt at which it was read.
pub open spec fn document_read(
    resource_name: Seq<char>,
    id: u64,
    events: Seq<EventModel>,
    source: Source,
) -> Option<(u64, Seq<char>)>
    decreases events.len(),
{
    if events.len() == 0 {
        None
    } else {
        let before = events.drop_last();
        match document_read(resource_name, id, before, source) {
            Some(read) => Some(read),
            None => match (run(resource_name, id, before), events.last()) {
                (Some((task, _)), EventModel::Body(body)) => match task.progress {
                    Progress::Answered { source: from, attempt } => if from == source {
                        Some((attempt, body))
                    } else {
                        None
                    },
                    _ => None,
                },
                _ => None,
            },
        }
    }
}

/// The data document that a run has read, if it has read one.
pub open spec fn data_body(resource_name: Seq<char>, id: u64, events: Seq<EventModel>) -> Option<
    Seq<char>,
> {
    match document_read(resource_name, id, events, Source::Data) {
        Some((_, body)) => Some(body),
        None => None,
    }
}

/// The page that a run has read, if it has read one.
pub open spec fn page_body(resource_name: Seq<char>, id: u64, events: Seq<EventModel>) -> Option<
    Seq<char>,
> {
    match document_read(resource_name, id, events, Source::Page) {
        Some((_, body)) => Some(body),
        None => None,
    }
}

/// The abstract in the data document that a run has read; empty where it has read none, or
/// none with an abstract.
pub open spec fn data_abstract(resource_name: Seq<char>, id: u64, events: Seq<EventModel>) -> Seq<
    char,
> {
    match data_body(resource_name, id, events) {
        Some(body) => extracted(body, resource_name),
        None => Seq::empty(),
    }
}

/// Whether a run has read a data document that was not empty but had no abstract.
pub open spec fn data_falls_short(
    resource_name: Seq<char>,
    id: u64,
    events: Seq<EventModel>,
) -> bool {
    match data_body(resource_name, id, events) {
        Some(body) => body.len() > 0 && extracted(body, resource_name).len() == 0,
        None => false,
    }
}

/// The abstract of a page, empty where no page was read.
pub open spec fn fallback_text(page: Option<Seq<char>>) -> Seq<char> {
    match page {
        Some(body) => page_text(body),
        None => Seq::empty(),
    }
}

/// How often a document that was called for has been asked for: as often as it took to read
/// it, and where it was not read, as often as the attempts that were begun.
pub open spec fn times_asked(read: Option<(u64, Seq<char>)>, progress: Progress) -> nat {
    match read {
        Some((attempt, _)) => attempt as nat,
        None => match progress {
            Progress::Requested { attempt, .. } => attempt as nat,
            Progress::Answered { attempt, .. } => attempt as nat,
            Progress::Pausing { attempt, .. } => attempt as nat,
            Progress::Finished => MAX_ATTEMPTS as nat,
        },
    }
}

/// How many seconds there are in the pauses after so many failed attempts.
pub open spec fn paused_after(failed: int) -> nat {
    if failed <= 0 {
        0
    } else if failed == 1 {
        2
    } else if failed == 2 {
        6
    } else {
        12
    }
}

/// How many seconds a task has paused over a document that was called for: one pause for each
/// failed attempt.
pub open spec fn time_paused(read: Option<(u64, Seq<char>)>, progress: Progress) -> nat {
    match read {
        Some((attempt, _)) => paused_after(attempt - 1),
        None => match progress {
            Progress::Requested { attempt, .. } => paused_after(attempt - 1),
            Progress::Answered { attempt, .. } => paused_after(attempt - 1),
            Progress::Pausing { attempt, .. } => paused_after(attempt as int),
            Progress::Finished => paused_after(MAX_ATTEMPTS as int),
        },
    }
}

/// Whether a task works on a document.
spec fn works_on(progress: Progress, source: Source) -> bool {
    match progress {
        Progress::Requested { source: current, .. } => current == source,
        Progress::Answered { source: current, .. } => current == source,
        Progress::Pausing { source: current, .. } => current == source,
        Progress::Finished => false,
    }
}

proof fn lemma_documents(resource_name: Seq<char>, id: u64, events: Seq<EventModel>)
    ensures
        run(resource_name, id, events) matches Some((task, actions)) ==> {
            let data = document_read(resource_name, id, events, Source::Data);
            let page = document_read(resource_name, id, events, Source::Page);
            let short = data_falls_short(resource_name, id, events);
            &&& data matches Some((attempt, _)) ==> 1 <= attempt <= MAX_ATTEMPTS
            &&& page matches Some((attempt, _)) ==> 1 <= attempt <= MAX_ATTEMPTS
            &&& works_on(task.progress, Source::Data) ==> data is None
            &&& works_on(task.progress, Source::Page) ==> short && page is None
            &&& page is Some ==> short && task.progress is Finished
            &&& data is Some && !short ==> task.progress is Finished
            &&& requests(actions, json_url(resource_name)) == times_asked(data, task.progress)
            &&& requests(actions, resource_url(resource_name)) == if short {
                times_asked(page, task.progress)
            } else {
                0
            }
            &&& paused(actions) == time_paused(data, task.progress) + if short {
                time_paused(page, task.progress)
            } else {
                0
            }
            &&& task.lookup == if data matches Some((_, text)) && text.len() > 0 {
                Some(lookup_in(parsed_json((data->0).1), resource_name))
            } else {
                None
            }
            &&& actions.last() matches ActionModel::Send { text, .. } ==> text == if data_abstract(
                resource_name,
                id,
                events,
            ).len() > 0 {
                data_abstract(resource_name, id, events)
            } else {
                fallback_text(page_body(resource_name, id, events))
            }
        },
    decreases events.len(),
{
    lemma_urls_differ(resource_name);
    lemma_run(resource_name, id, events);
    if events.len() == 0 {
        let (task, action) = begin(resource_name, id);
        let actions = seq![action];
        assert(actions.drop_last() =~= Seq::<ActionModel>::empty());
        reveal_with_fuel(requests, 2);
        reveal_with_fuel(paused, 2);
    } else {
        let before = events.drop_last();
        lemma_documents(resource_name, id, before);
        lemma_run(resource_name, id, before);
        if let Some((task, actions)) = run(resource_name, id, before) {
            if accepts(task, events.last()) {
                let (then, action) = next(task, events.last());
                assert(actions.push(action).drop_last() =~= actions);
                assert(actions.push(action).last() == action);
            }
        }
    }
}

/// At any point of a run, the task has asked for the data document exactly once for each
/// attempt on it; and for the page too where the data document falls short, and else not at
/// all.
pub proof fn law_requests_are_counted(resource_name: Seq<char>, id: u64, events: Seq<EventModel>)
    ensures
        run(resource_name, id, events) matches Some((task, actions)) ==> {
            &&& requests(actions, json_url(resource_name)) == times_asked(
                document_read(resource_name, id, events, Source::Data),
                task.progress,
            )
            &&& requests(actions, resource_url(resource_name)) == if data_falls_short(
                resource_name,
                id,
                events,
            ) {
                times_asked(
                    document_read(resource_name, id, events, Source::Page),
                    task.progress,
                )
            } else {
                0
            }
        },
{
    lemma_documents(resource_name, id, events);
}

/// While a task works on a document, the number of its attempt is the number of its requests
/// for that document so far.
pub proof fn law_attempt_counts_requests(
    resource_name: Seq<char>,
    id: u64,
    events: Seq<EventModel>,
)
    ensures
        run(resource_name, id, events) matches Some((task, actions)) ==> match task.progress {
            Progress::Requested { source, attempt } => requests(actions, source.url(resource_name))
                == attempt,
            Progress::Answered { source, attempt } => requests(actions, source.url(resource_name))
                == attempt,
            Progress::Pausing { source, attempt } => requests(actions, source.url(resource_name))
                == attempt,
            Progress::Finished => true,
        },
{
    lemma_documents(resource_name, id, events);
}

/// Once a task has sent its record, it has asked for each document that it read as often as
/// the number of the attempt at which it read it, three times for one that it called for and
/// could not read, and never for a page that it did not call for.
pub proof fn law_requests_of_a_finished_run(
    resource_name: Seq<char>,
    id: u64,
    events: Seq<EventModel>,
)
    ensures
        run(resource_name, id, events) matches Some((task, actions)) ==> (task.progress is Finished
            ==> {
            &&& requests(actions, json_url(resource_name)) == match document_read(
                resource_name,
                id,
                events,
                Source::Data,
            ) {
                Some((attempt, _)) => attempt as nat,
                None => 3,
            }
            &&& requests(actions, resource_url(resource_name)) == match document_read(
                resource_name,
                id,
                events,
                Source::Page,
            ) {
                Some((attempt, _)) => attempt as nat,
                None => if data_falls_short(resource_name, id, events) {
                    3
                } else {
                    0
                },
            }
        }),
{
    lemma_documents(resource_name, id, events);
}

/// A task asks for nothing but its two documents, each with the time that its answer may take.
pub proof fn law_only_documents_are_asked_for(
    resource_name: Seq<char>,
    id: u64,
    events: Seq<EventModel>,
    i: int,
)
    ensures
        run(resource_name, id, events) matches Some((_, actions)) ==> (0 <= i < actions.len() ==> (
        actions[i] matches ActionModel::Request { url, timeout_secs } ==> {
            ||| url == json_url(resource_name) && timeout_secs == Source::Data.timeout()
            ||| url == resource_url(resource_name) && timeout_secs == Source::Page.timeout()
        })),
    decreases events.len(),
{
    if events.len() > 0 {
        let before = events.drop_last();
        law_only_documents_are_asked_for(resource_name, id, before, i);
        lemma_run(resource_name, id, before);
    }
}

/// A task pauses once for each failed attempt, two seconds longer each time.
pub proof fn law_pauses_are_counted(resource_name: Seq<char>, id: u64, events: Seq<EventModel>)
    ensures
        run(resource_name, id, events) matches Some((task, actions)) ==> paused(actions)
            == time_paused(
            document_read(resource_name, id, events, Source::Data),
            task.progress,
        ) + if data_falls_short(resource_name, id, events) {
            time_paused(document_read(resource_name, id, events, Source::Page), task.progress)
        } else {
            0
        },
{
    lemma_documents(resource_name, id, events);
}

/// A task asks for each of its two documents at most three times, and pauses for at most
/// 18 seconds in all.
pub proof fn law_attempts_are_bounded(resource_name: Seq<char>, id: u64, events: Seq<EventModel>)
    ensures
        run(resource_name, id, events) matches Some((_, actions)) ==> {
            &&& requests(actions, json_url(resource_name)) <= MAX_ATTEMPTS
            &&& requests(actions, resource_url(resource_name)) <= MAX_ATTEMPTS
            &&& paused(actions) <= 18
        },
{
    lemma_run(resource_name, id, events);
    lemma_documents(resource_name, id, events);
}

/// An abstract in the data document is what the record has, and the page is then not asked
/// for at all.
pub proof fn law_data_abstract_is_sent(resource_name: Seq<char>, id: u64, events: Seq<EventModel>)
    ensures
        run(resource_name, id, events) matches Some((task, actions)) ==> (data_body(
            resource_name,
            id,
            events,
        ) matches Some(body) ==> (extracted(body, resource_name).len() > 0 ==> {
            &&& task.progress is Finished
            &&& actions.last() == (ActionModel::Send { id, text: extracted(body, resource_name) })
            &&& requests(actions, resource_url(resource_name)) == 0
        })),
{
    lemma_run(resource_name, id, events);
    lemma_documents(resource_name, id, events);
}

/// The page is a fallback: a task asks for it exactly when it has read a data document that
/// was not empty and had no abstract.
pub proof fn law_page_is_a_fallback(resource_name: Seq<char>, id: u64, events: Seq<EventModel>)
    ensures
        run(resource_name, id, events) matches Some((_, actions)) ==> (requests(
            actions,
            resource_url(resource_name),
        ) > 0 <==> data_falls_short(resource_name, id, events)),
{
    lemma_run(resource_name, id, events);
    lemma_documents(resource_name, id, events);
}

/// A task knows how looking for the abstract in the data document came out, exactly when it
/// has read one that was not empty.
pub proof fn law_lookup_is_known(resource_name: Seq<char>, id: u64, events: Seq<EventModel>)
    ensures
        run(resource_name, id, events) matches Some((task, _)) ==> task.lookup == match data_body(
            resource_name,
            id,
            events,
        ) {
            Some(body) => if body.len() > 0 {
                Some(lookup_in(parsed_json(body), resource_name))
            } else {
                None
            },
            None => None,
        },
{
    lemma_documents(resource_name, id, events);
}

/// The record that a finished task has sent has the identifier of its entity, and the abstract
/// in the data document; where there is none, it has the abstract of the page that was read,
/// and where no page was read, its text is empty.
pub proof fn law_record_text(resource_name: Seq<char>, id: u64, events: Seq<EventModel>)
    ensures
        run(resource_name, id, events) matches Some((task, actions)) ==> (task.progress is Finished
            ==> actions.last() == (ActionModel::Send {
            id,
            text: if data_abstract(resource_name, id, events).len() > 0 {
                data_abstract(resource_name, id, events)
            } else {
                fallback_text(page_body(resource_name, id, events))
            },
        })),
{
    lemma_run(resource_name, id, events);
    lemma_documents(resource_name, id, events);
}

/// Where the data document falls short, the record of a finished task has the identifier of
/// its entity and what the page gives: its abstract, or an empty text where it could not be
/// read.
pub proof fn law_fallback_is_sent(resource_name: Seq<char>, id: u64, events: Seq<EventModel>)
    ensures
        run(resource_name, id, events) matches Some((task, actions)) ==> (task.progress is Finished
            && data_falls_short(resource_name, id, events) ==> actions.last() == (
        ActionModel::Send { id, text: fallback_text(page_body(resource_name, id, events)) })),
{
    law_record_text(resource_name, id, events);
}

/// The text that a page gives goes by its body alone: two tasks that fall back on the same
/// page send the same text, whatever they are about and however many attempts it took.
pub proof fn law_same_page_same_text(
    resource_name: Seq<char>,
    id: u64,
    events: Seq<EventModel>,
    other_name: Seq<char>,
    other_id: u64,
    other_events: Seq<EventModel>,
)
    requires
        data_falls_short(resource_name, id, events),
        data_falls_short(other_name, other_id, other_events),
        page_body(resource_name, id, events) == page_body(other_name, other_id, other_events),
    ensures
        match (run(resource_name, id, events), run(other_name, other_id, other_events)) {
            (Some((_, actions)), Some((_, others))) => match (actions.last(), others.last()) {
                (
                    ActionModel::Send { text, .. },
                    ActionModel::Send { text: other, .. },
                ) => text == other,
                _ => true,
            },
            _ => true,
        },
{
    lemma_documents(resource_name, id, events);
    lemma_documents(other_name, other_id, other_events);
}

} // verus!
