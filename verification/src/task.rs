//! The work on one entity, step by step.
//!
//! A task asks for one thing at a time: a request, the body of an answer, a pause, and at
//! the end the sending of its record. Whoever runs it does what it asks for and tells it
//! how that went.

use vstd::pervasive::unreached;
use vstd::prelude::*;

use crate::document::{
    extracted, get_json_url, get_resource_url, json_url, look_up_abstract, lookup_in, resource_url, Lookup,
    LookupModel,
};
use crate::json::parsed_json;
use crate::page::{
    extract_abstract_from_page, fits_within, page_fits, page_text, MAX_PARSED_BYTES,
};

verus! {

/// How often each document is asked for before the task gives up.
pub const MAX_ATTEMPTS: u64 = 3;

/// The two documents that a task asks for, one after the other.
#[derive(Debug, Clone, Copy, PartialEq, Eq, Structural)]
pub enum Source {
    /// The data document of the resource.
    Data,
    /// The page of the resource.
    Page,
}

impl Source {
    /// How many seconds an answer may take.
    pub open spec fn timeout(self) -> u64 {
        match self {
            Source::Data => 10,
            Source::Page => 15,
        }
    }

    /// Where the document of a resource is.
    pub open spec fn url(self, resource_name: Seq<char>) -> Seq<char> {
        match self {
            Source::Data => json_url(resource_name),
            Source::Page => resource_url(resource_name),
        }
    }

    /// How many seconds an answer may take.
    pub fn timeout_secs(self) -> (secs: u64)
        ensures
            secs == self.timeout(),
    {
        match self {
            Source::Data => 10,
            Source::Page => 15,
        }
    }

    /// The address of the document of a resource.
    pub fn get_url(self, resource_name: &str) -> (url: String)
        ensures
            url@ == self.url(resource_name@),
    {
        match self {
            Source::Data => get_json_url(resource_name),
            Source::Page => get_resource_url(resource_name),
        }
    }
}

/// What a task waits for.
#[derive(Debug, Clone, Copy, PartialEq, Eq, Structural)]
pub enum Progress {
    /// The answer to a request, the `attempt`th for this document.
    Requested { source: Source, attempt: u64 },
    /// The body of the answer.
    Answered { source: Source, attempt: u64 },
    /// The end of the pause after a failed attempt.
    Pausing { source: Source, attempt: u64 },
    /// Nothing more: the record has been handed out.
    Finished,
}

impl Progress {
    /// Whether the attempt is one of those that are made.
    pub open spec fn valid(self) -> bool {
        match self {
            Progress::Requested { attempt, .. } => 1 <= attempt <= MAX_ATTEMPTS,
            Progress::Answered { attempt, .. } => 1 <= attempt <= MAX_ATTEMPTS,
            Progress::Pausing { attempt, .. } => 1 <= attempt <= MAX_ATTEMPTS,
            Progress::Finished => true,
        }
    }
}

/// How what a task asked for went.
#[derive(Debug)]
pub enum Event {
    /// The request was answered with this HTTP status.
    Answer(u16),
    /// The request failed.
    NoAnswer,
    /// The answer took too long.
    TimedOut,
    /// The answer had this body.
    Body(String),
    /// The body could not be read.
    NoBody,
    /// The pause is over.
    Paused,
}

/// What an [`Event`] says.
pub enum EventModel {
    Answer(u16),
    NoAnswer,
    TimedOut,
    Body(Seq<char>),
    NoBody,
    Paused,
}

impl Event {
    /// What this says.
    pub open spec fn model(self) -> EventModel {
        match self {
            Event::Answer(status) => EventModel::Answer(status),
            Event::NoAnswer => EventModel::NoAnswer,
            Event::TimedOut => EventModel::TimedOut,
            Event::Body(text) => EventModel::Body(text@),
            Event::NoBody => EventModel::NoBody,
            Event::Paused => EventModel::Paused,
        }
    }
}

/// What a task asks for.
#[derive(Debug)]
pub enum Action {
    /// Ask for a document, and give up on the answer after some seconds.
    Request { url: String, timeout_secs: u64 },
    /// Read the body of the answer.
    ReadBody,
    /// Let some seconds pass.
    Pause { secs: u64 },
    /// Send the record of the entity.
    Send { id: u64, text: String },
}

/// What an [`Action`] asks for.
pub enum ActionModel {
    Request { url: Seq<char>, timeout_secs: u64 },
    ReadBody,
    Pause { secs: u64 },
    Send { id: u64, text: Seq<char> },
}

impl Action {
    /// What this asks for.
    pub open spec fn model(self) -> ActionModel {
        match self {
            Action::Request { url, timeout_secs } => {
                ActionModel::Request { url: url@, timeout_secs }
            },
            Action::ReadBody => ActionModel::ReadBody,
            Action::Pause { secs } => ActionModel::Pause { secs },
            Action::Send { id, text } => ActionModel::Send { id, text: text@ },
        }
    }
}

/// The state of a task.
pub struct TaskModel {
    pub resource_name: Seq<char>,
    pub id: u64,
    pub progress: Progress,
    /// How looking for the abstract in the data document came out, once that was read.
    pub lookup: Option<LookupModel>,
}

/// Whether an HTTP status says that the request succeeded.
pub open spec fn success(status: u16) -> bool {
    200 <= status < 300
}

/// Whether a task waits for an event of this kind. The body of a page has to be short
/// enough to be parsed.
pub open spec fn accepts(task: TaskModel, event: EventModel) -> bool {
    match (task.progress, event) {
        (Progress::Requested { .. }, EventModel::Answer(_)) => true,
        (Progress::Requested { .. }, EventModel::NoAnswer) => true,
        (Progress::Requested { .. }, EventModel::TimedOut) => true,
        (Progress::Answered { source, .. }, EventModel::Body(text)) => source == Source::Page
            ==> page_fits(text),
        (Progress::Answered { .. }, EventModel::NoBody) => true,
        (Progress::Pausing { .. }, EventModel::Paused) => true,
        _ => false,
    }
}

/// Asks for a document.
pub open spec fn request(task: TaskModel, source: Source, attempt: u64) -> (
    TaskModel,
    ActionModel,
) {
    (
        TaskModel { progress: Progress::Requested { source, attempt }, ..task },
        ActionModel::Request {
            url: source.url(task.resource_name),
            timeout_secs: source.timeout(),
        },
    )
}

/// Pauses after a failed attempt, two seconds longer each time.
pub open spec fn pause(task: TaskModel, source: Source, attempt: u64) -> (TaskModel, ActionModel) {
    (
        TaskModel { progress: Progress::Pausing { source, attempt }, ..task },
        ActionModel::Pause { secs: (attempt * 2) as u64 },
    )
}

/// Ends with a record.
pub open spec fn finish(task: TaskModel, text: Seq<char>) -> (TaskModel, ActionModel) {
    (
        TaskModel { progress: Progress::Finished, ..task },
        ActionModel::Send { id: task.id, text },
    )
}

/// A new task, and what it asks for first.
pub open spec fn begin(resource_name: Seq<char>, id: u64) -> (TaskModel, ActionModel) {
    request(
        TaskModel { resource_name, id, progress: Progress::Finished, lookup: None },
        Source::Data,
        1,
    )
}

/// Goes on after the data document has been read. An empty one ends the task with an empty
/// text, and one with an abstract ends it with that; the page is asked for only where there
/// was something to read and no abstract in it.
pub open spec fn data_read(task: TaskModel, body: Seq<char>) -> (TaskModel, ActionModel) {
    if body.len() == 0 {
        finish(task, Seq::empty())
    } else {
        let lookup = lookup_in(parsed_json(body), task.resource_name);
        let known = TaskModel { lookup: Some(lookup), ..task };
        if lookup.text().len() > 0 {
            finish(known, lookup.text())
        } else {
            request(known, Source::Page, 1)
        }
    }
}

/// What a task does next, and what it is then.
pub open spec fn next(task: TaskModel, event: EventModel) -> (TaskModel, ActionModel) {
    match (task.progress, event) {
        (Progress::Requested { source, attempt }, EventModel::Answer(status)) => if success(
            status,
        ) {
            (
                TaskModel { progress: Progress::Answered { source, attempt }, ..task },
                ActionModel::ReadBody,
            )
        } else {
            pause(task, source, attempt)
        },
        (Progress::Requested { source, attempt }, _) => pause(task, source, attempt),
        (Progress::Answered { source, .. }, EventModel::Body(text)) => match source {
            Source::Data => data_read(task, text),
            Source::Page => finish(task, page_text(text)),
        },
        (Progress::Answered { source, attempt }, _) => pause(task, source, attempt),
        (Progress::Pausing { source, attempt }, _) => if attempt < MAX_ATTEMPTS {
            request(task, source, (attempt + 1) as u64)
        } else {
            finish(task, Seq::empty())
        },
        (Progress::Finished, _) => arbitrary(),
    }
}

/// The data document is asked for with ten seconds for the answer, the page with fifteen, each
/// at its own address, and each up to three times.
pub proof fn law_how_documents_are_asked_for(resource_name: Seq<char>)
    ensures
        Source::Data.url(resource_name) == "https://dbpedia.org/data/"@ + resource_name + ".json"@,
        Source::Page.url(resource_name) == "http://dbpedia.org/resource/"@ + resource_name,
        Source::Data.timeout() == 10,
        Source::Page.timeout() == 15,
        MAX_ATTEMPTS == 3,
{
}

/// A new task is about the resource and the entity that it was started for, and asks for the
/// data document of that resource.
pub proof fn law_task_begins_with_the_data(resource_name: Seq<char>, id: u64)
    ensures
        begin(resource_name, id).0.resource_name == resource_name,
        begin(resource_name, id).0.id == id,
        begin(resource_name, id).0.progress == (Progress::Requested {
            source: Source::Data,
            attempt: 1,
        }),
        begin(resource_name, id).0.lookup is None,
        begin(resource_name, id).1 == (ActionModel::Request {
            url: "https://dbpedia.org/data/"@ + resource_name + ".json"@,
            timeout_secs: 10,
        }),
{
}

/// What a task waits for: after a request an answer, that there is none or that it takes too
/// long; after an answer its body, which for a page has to fit, or that there is none; in a
/// pause its end; and after its record nothing.
pub proof fn law_what_a_task_waits_for(task: TaskModel, event: EventModel)
    ensures
        accepts(task, event) <==> match task.progress {
            Progress::Requested { .. } => event is Answer || event is NoAnswer || event is TimedOut,
            Progress::Answered { source: Source::Data, .. } => event is Body || event is NoBody,
            Progress::Answered { source: Source::Page, .. } => event is NoBody || (
            event matches EventModel::Body(text) && page_fits(text)),
            Progress::Pausing { .. } => event is Paused,
            Progress::Finished => false,
        },
{
}

/// Whatever happens, a task stays about the same resource and the same entity.
pub proof fn law_task_stays_about_its_entity(task: TaskModel, event: EventModel)
    requires
        accepts(task, event),
    ensures
        next(task, event).0.resource_name == task.resource_name,
        next(task, event).0.id == task.id,
        next(task, event).1 matches ActionModel::Send { id, .. } ==> id == task.id,
        next(task, event).1 is Send <==> next(task, event).0.progress is Finished,
{
}

/// An answer leads to its body exactly with a status from 200 to 299; with any other status
/// the attempt has failed, and a pause of twice its number of seconds follows.
pub proof fn law_only_success_leads_to_the_body(
    task: TaskModel,
    source: Source,
    attempt: u64,
    status: u16,
)
    requires
        task.progress == (Progress::Requested { source, attempt }),
        1 <= attempt <= 3,
    ensures
        200 <= status < 300 ==> {
            &&& next(task, EventModel::Answer(status)).0.progress == (Progress::Answered {
                source,
                attempt,
            })
            &&& next(task, EventModel::Answer(status)).1 is ReadBody
        },
        status < 200 || status >= 300 ==> {
            &&& next(task, EventModel::Answer(status)).0.progress == (Progress::Pausing {
                source,
                attempt,
            })
            &&& next(task, EventModel::Answer(status)).1 matches ActionModel::Pause { secs }
                && secs == 2 * attempt
        },
        next(task, EventModel::Answer(status)).0.lookup == task.lookup,
{
}

/// Without an answer, without one in time and without a body the attempt has failed, and a
/// pause of twice its number of seconds follows.
pub proof fn law_failed_attempt_pauses(
    task: TaskModel,
    source: Source,
    attempt: u64,
    event: EventModel,
)
    requires
        1 <= attempt <= 3,
        (task.progress == (Progress::Requested { source, attempt }) && (event is NoAnswer
            || event is TimedOut)) || (task.progress == (Progress::Answered { source, attempt })
            && event is NoBody),
    ensures
        next(task, event).0.progress == (Progress::Pausing { source, attempt }),
        next(task, event).0.lookup == task.lookup,
        next(task, event).1 matches ActionModel::Pause { secs } && secs == 2 * attempt,
{
}

/// A pause after the first or the second attempt leads to the next attempt on the same
/// document; after the third the task gives up with an empty text.
pub proof fn law_pause_leads_to_the_next_attempt(task: TaskModel, source: Source, attempt: u64)
    requires
        task.progress == (Progress::Pausing { source, attempt }),
        1 <= attempt <= 3,
    ensures
        next(task, EventModel::Paused).0.lookup == task.lookup,
        attempt < 3 ==> {
            &&& next(task, EventModel::Paused).0.progress matches Progress::Requested {
                source: same,
                attempt: further,
            }
            &&& same == source
            &&& further == attempt + 1
            &&& next(task, EventModel::Paused).1 == match source {
                Source::Data => ActionModel::Request {
                    url: "https://dbpedia.org/data/"@ + task.resource_name + ".json"@,
                    timeout_secs: 10,
                },
                Source::Page => ActionModel::Request {
                    url: "http://dbpedia.org/resource/"@ + task.resource_name,
                    timeout_secs: 15,
                },
            }
        },
        attempt == 3 ==> {
            &&& next(task, EventModel::Paused).0.progress is Finished
            &&& next(task, EventModel::Paused).1 == (ActionModel::Send {
                id: task.id,
                text: Seq::empty(),
            })
        },
{
}

/// What is extracted from the data document is sent whole; the page is asked for exactly
/// where the document is not empty and nothing is extracted from it.
pub proof fn law_data_document_decides(task: TaskModel, attempt: u64, body: Seq<char>)
    requires
        task.progress == (Progress::Answered { source: Source::Data, attempt }),
    ensures
        body.len() == 0 ==> {
            &&& next(task, EventModel::Body(body)).0.progress is Finished
            &&& next(task, EventModel::Body(body)).0.lookup == task.lookup
            &&& next(task, EventModel::Body(body)).1 == (ActionModel::Send {
                id: task.id,
                text: Seq::empty(),
            })
        },
        body.len() > 0 ==> next(task, EventModel::Body(body)).0.lookup == Some(
            lookup_in(parsed_json(body), task.resource_name),
        ),
        extracted(body, task.resource_name).len() > 0 ==> {
            &&& next(task, EventModel::Body(body)).0.progress is Finished
            &&& next(task, EventModel::Body(body)).1 == (ActionModel::Send {
                id: task.id,
                text: extracted(body, task.resource_name),
            })
        },
        body.len() > 0 && extracted(body, task.resource_name).len() == 0 ==> {
            &&& next(task, EventModel::Body(body)).0.progress == (Progress::Requested {
                source: Source::Page,
                attempt: 1,
            })
            &&& next(task, EventModel::Body(body)).1 == (ActionModel::Request {
                url: "http://dbpedia.org/resource/"@ + task.resource_name,
                timeout_secs: 15,
            })
        },
{
}

/// The abstract of the page is sent whole, and where the page has none an empty text.
pub proof fn law_page_abstract_is_sent(task: TaskModel, attempt: u64, body: Seq<char>)
    requires
        task.progress == (Progress::Answered { source: Source::Page, attempt }),
    ensures
        next(task, EventModel::Body(body)).0.progress is Finished,
        next(task, EventModel::Body(body)).0.lookup == task.lookup,
        next(task, EventModel::Body(body)).1 == (ActionModel::Send {
            id: task.id,
            text: page_text(body),
        }),
{
}

/// What an event says is what happened, with the status or the body that came.
pub proof fn law_event_keeps_what_came(event: Event)
    ensures
        match event {
            Event::Answer(status) => event.model() == EventModel::Answer(status),
            Event::NoAnswer => event.model() is NoAnswer,
            Event::TimedOut => event.model() is TimedOut,
            Event::Body(text) => event.model() == EventModel::Body(text@),
            Event::NoBody => event.model() is NoBody,
            Event::Paused => event.model() is Paused,
        },
{
}

/// What an action asks for is what is to be done, with all that it takes to do it.
pub proof fn law_action_keeps_what_it_takes(action: Action)
    ensures
        match action {
            Action::Request { url, timeout_secs } => action.model() == (ActionModel::Request {
                url: url@,
                timeout_secs,
            }),
            Action::ReadBody => action.model() is ReadBody,
            Action::Pause { secs } => action.model() == (ActionModel::Pause { secs }),
            Action::Send { id, text } => action.model() == (ActionModel::Send { id, text: text@ }),
        },
{
}

/// The work on one entity.
#[derive(Debug)]
pub struct Task {
    resource_name: String,
    value_id: u64,
    progress: Progress,
    lookup: Option<Lookup>,
}

impl Task {
    #[verifier::type_invariant]
    spec fn attempts_are_counted(self) -> bool {
        self.progress.valid()
    }

    /// The state that this is in.
    pub closed spec fn model(self) -> TaskModel {
        TaskModel {
            resource_name: self.resource_name@,
            id: self.value_id,
            progress: self.progress,
            lookup: match self.lookup {
                Some(lookup) => Some(lookup.model()),
                None => None,
            },
        }
    }

    /// Starts the work on an entity.
    pub fn start(resource_name: String, value_id: u64) -> (started: (Task, Action))
        ensures
            started.0.model() == begin(resource_name@, value_id).0,
            started.1.model() == begin(resource_name@, value_id).1,
            started.0.model().resource_name == resource_name@,
            started.0.model().id == value_id,
            started.1 matches Action::Request { url, timeout_secs } && url@
                == "https://dbpedia.org/data/"@ + resource_name@ + ".json"@ && timeout_secs == 10,
    {
        let action = Action::Request {
            url: Source::Data.get_url(resource_name.as_str()),
            timeout_secs: Source::Data.timeout_secs(),
        };
        let task = Task {
            resource_name,
            value_id,
            progress: Progress::Requested { source: Source::Data, attempt: 1 },
            lookup: None,
        };
        (task, action)
    }

    /// The name of the resource.
    pub fn resource_name(&self) -> (name: &str)
        ensures
            name@ == self.model().resource_name,
    {
        self.resource_name.as_str()
    }

    /// What the task waits for.
    pub fn progress(&self) -> (progress: Progress)
        ensures
            progress == self.model().progress,
            progress.valid(),
    {
        proof {
            use_type_invariant(self);
        }
        self.progress
    }

    /// How looking for the abstract in the data document came out, once that was read.
    pub fn lookup(&self) -> (lookup: &Option<Lookup>)
        ensures
            match lookup {
                Some(known) => self.model().lookup == Some(known.model()),
                None => self.model().lookup is None,
            },
    {
        &self.lookup
    }

    /// Whether the task waits for this event.
    pub fn accepts(&self, event: &Event) -> (waits: bool)
        ensures
            waits == accepts(self.model(), event.model()),
    {
        match (self.progress, event) {
            (Progress::Requested { .. }, Event::Answer(_)) => true,
            (Progress::Requested { .. }, Event::NoAnswer) => true,
            (Progress::Requested { .. }, Event::TimedOut) => true,
            (Progress::Answered { source, .. }, Event::Body(text)) => source == Source::Data
                || fits_within(text.as_str(), MAX_PARSED_BYTES),
            (Progress::Answered { .. }, Event::NoBody) => true,
            (Progress::Pausing { .. }, Event::Paused) => true,
            _ => false,
        }
    }

    fn request(&mut self, source: Source, attempt: u64) -> (action: Action)
        requires
            1 <= attempt <= MAX_ATTEMPTS,
        ensures
            final(self).model() == request(old(self).model(), source, attempt).0,
            action.model() == request(old(self).model(), source, attempt).1,
    {
        self.progress = Progress::Requested { source, attempt };
        Action::Request {
            url: source.get_url(self.resource_name.as_str()),
            timeout_secs: source.timeout_secs(),
        }
    }

    fn pause(&mut self, source: Source, attempt: u64) -> (action: Action)
        requires
            1 <= attempt <= MAX_ATTEMPTS,
        ensures
            final(self).model() == pause(old(self).model(), source, attempt).0,
            action.model() == pause(old(self).model(), source, attempt).1,
    {
        self.progress = Progress::Pausing { source, attempt };
        Action::Pause { secs: attempt * 2 }
    }

    fn finish(&mut self, text: String) -> (action: Action)
        ensures
            final(self).model() == finish(old(self).model(), text@).0,
            action.model() == finish(old(self).model(), text@).1,
    {
        self.progress = Progress::Finished;
        Action::Send { id: self.value_id, text }
    }

    fn data_read(&mut self, body: &str) -> (action: Action)
        ensures
            final(self).model() == data_read(old(self).model(), body@).0,
            action.model() == data_read(old(self).model(), body@).1,
    {
        if body.is_empty() {
            return self.finish(String::new());
        }
        let lookup = look_up_abstract(body, self.resource_name.as_str());
        let text = lookup.to_text();
        proof {
            use_type_invariant(&*self);
        }
        self.lookup = Some(lookup);
        if text.as_str().is_empty() {
            self.request(Source::Page, 1)
        } else {
            self.finish(text)
        }
    }

    /// Tells the task how what it asked for went, and gives back what it asks for next.
    pub fn step(&mut self, event: Event) -> (action: Action)
        requires
            accepts(old(self).model(), event.model()),
        ensures
            final(self).model() == next(old(self).model(), event.model()).0,
            action.model() == next(old(self).model(), event.model()).1,
            old(self).model().progress matches Progress::Requested { source, attempt } ==> match (
                event,
                action,
            ) {
                (Event::Answer(status), Action::ReadBody) => 200 <= status < 300
                    && final(self).model().progress == (Progress::Answered { source, attempt }),
                (Event::Answer(status), Action::Pause { secs }) => (status < 200 || status >= 300)
                    && secs == 2 * attempt && final(self).model().progress == (Progress::Pausing {
                    source,
                    attempt,
                }),
                (Event::NoAnswer, Action::Pause { secs }) => secs == 2 * attempt,
                (Event::TimedOut, Action::Pause { secs }) => secs == 2 * attempt,
                _ => false,
            },
            old(self).model().progress matches Progress::Answered { source, attempt } ==> match (
                event,
                action,
            ) {
                (Event::Body(body), Action::Send { id, text }) => id == old(self).model().id
                    && text@ == match source {
                    Source::Data => extracted(body@, old(self).model().resource_name),
                    Source::Page => page_text(body@),
                },
                (Event::Body(body), Action::Request { .. }) => source == Source::Data && body@.len()
                    > 0 && extracted(body@, old(self).model().resource_name).len() == 0,
                (Event::NoBody, Action::Pause { secs }) => secs == 2 * attempt,
                _ => false,
            },
            old(self).model().progress matches Progress::Pausing { attempt, .. } ==> match action {
                Action::Request { .. } => attempt < 3,
                Action::Send { id, text } => attempt == 3 && id == old(self).model().id
                    && text@.len() == 0,
                _ => false,
            },
            action matches Action::Request { url, timeout_secs } ==> {
                ||| url@ == "https://dbpedia.org/data/"@ + old(self).model().resource_name
                    + ".json"@ && timeout_secs == 10
                ||| url@ == "http://dbpedia.org/resource/"@ + old(self).model().resource_name
                    && timeout_secs == 15
            },
    {
        proof {
            use_type_invariant(&*self);
        }
        match (self.progress, event) {
            (Progress::Requested { source, attempt }, Event::Answer(status)) => {
                if 200 <= status && status < 300 {
                    self.progress = Progress::Answered { source, attempt };
                    Action::ReadBody
                } else {
                    self.pause(source, attempt)
                }
            },
            (Progress::Requested { source, attempt }, _) => self.pause(source, attempt),
            (Progress::Answered { source, .. }, Event::Body(text)) => match source {
                Source::Data => self.data_read(text.as_str()),
                Source::Page => {
                    let found = extract_abstract_from_page(text.as_str());
                    self.finish(found)
                },
            },
            (Progress::Answered { source, attempt }, _) => self.pause(source, attempt),
            (Progress::Pausing { source, attempt }, _) => {
                if attempt < MAX_ATTEMPTS {
                    self.request(source, attempt + 1)
                } else {
                    self.finish(String::new())
                }
            },
            (Progress::Finished, _) => unreached(),
        }
    }
}

} // verus!
