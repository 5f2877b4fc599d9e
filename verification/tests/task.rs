use dbpedia_abstracts::document::Lookup;
use dbpedia_abstracts::task::{Action, Event, Progress, Source, Task};

const PAGE: &str = r#"<span property="dbo:abstract" lang="en"> From the page. </span>"#;
const DATA: &str = r#"{"http://dbpedia.org/resource/Film": {"http://dbpedia.org/ontology/abstract":
    [{"lang": "en", "value": "From the data."}]}}"#;

fn step(task: &mut Task, event: Event) -> Action {
    assert!(task.accepts(&event));
    task.step(event)
}

fn begun() -> Task {
    let (task, action) = Task::start("Film".to_string(), 42);
    assert!(matches!(
        action,
        Action::Request { url, timeout_secs: 10 } if url == "https://dbpedia.org/data/Film.json"
    ));
    task
}

fn data_is_read(body: &str) -> (Task, Action) {
    let mut task = begun();
    assert!(matches!(step(&mut task, Event::Answer(200)), Action::ReadBody));
    let action = step(&mut task, Event::Body(body.to_string()));
    (task, action)
}

fn sent(action: Action) -> String {
    match action {
        Action::Send { id, text } => {
            assert_eq!(id, 42);
            text
        }
        _ => panic!("no record"),
    }
}

#[test]
fn an_abstract_in_the_data_is_sent_without_the_page() {
    let (task, action) = data_is_read(DATA);
    assert_eq!(sent(action), "From the data.");
    assert_eq!(task.progress(), Progress::Finished);
    assert!(matches!(task.lookup(), Some(Lookup::Found(text)) if text == "From the data."));
}

#[test]
fn an_empty_abstract_in_the_data_leads_to_the_page() {
    let body = DATA.replace("From the data.", "");
    let (task, action) = data_is_read(&body);
    assert!(matches!(action, Action::Request { timeout_secs: 15, .. }));
    assert!(matches!(task.lookup(), Some(Lookup::Found(text)) if text.is_empty()));
}

#[test]
fn the_page_is_asked_for_after_the_data_and_its_text_is_sent() {
    let (mut task, action) = data_is_read("{}");
    assert!(matches!(
        action,
        Action::Request { url, timeout_secs: 15 } if url == "http://dbpedia.org/resource/Film"
    ));
    assert!(matches!(task.lookup(), Some(Lookup::Missing)));
    assert!(matches!(step(&mut task, Event::Answer(299)), Action::ReadBody));
    let action = step(&mut task, Event::Body(PAGE.to_string()));
    assert_eq!(sent(action), "From the page.");
    assert_eq!(task.progress(), Progress::Finished);
}

#[test]
fn an_empty_data_document_ends_the_task() {
    let (task, action) = data_is_read("");
    assert_eq!(sent(action), "");
    assert_eq!(task.progress(), Progress::Finished);
    assert!(task.lookup().is_none());
}

#[test]
fn a_data_document_without_an_abstract_leads_to_the_page() {
    let (task, action) = data_is_read("{}");
    assert!(matches!(action, Action::Request { .. }));
    assert!(matches!(task.lookup(), Some(Lookup::Missing)));
    let (task, action) = data_is_read("no json");
    assert!(matches!(action, Action::Request { .. }));
    assert!(matches!(task.lookup(), Some(Lookup::Malformed(_))));
}

#[test]
fn three_failures_end_in_an_empty_record() {
    let mut task = begun();
    assert!(matches!(step(&mut task, Event::TimedOut), Action::Pause { secs: 2 }));
    assert_eq!(task.progress(), Progress::Pausing { source: Source::Data, attempt: 1 });
    assert!(matches!(step(&mut task, Event::Paused), Action::Request { timeout_secs: 10, .. }));
    assert!(matches!(step(&mut task, Event::NoAnswer), Action::Pause { secs: 4 }));
    assert!(matches!(step(&mut task, Event::Paused), Action::Request { timeout_secs: 10, .. }));
    assert!(matches!(step(&mut task, Event::Answer(503)), Action::Pause { secs: 6 }));
    let action = step(&mut task, Event::Paused);
    assert_eq!(sent(action), "");
}

#[test]
fn a_page_that_cannot_be_had_gives_an_empty_record() {
    let (mut task, _) = data_is_read("{}");
    for attempt in 1..4 {
        assert_eq!(task.progress(), Progress::Requested { source: Source::Page, attempt });
        assert!(matches!(step(&mut task, Event::Answer(200)), Action::ReadBody));
        assert_eq!(task.progress(), Progress::Answered { source: Source::Page, attempt });
        match step(&mut task, Event::NoBody) {
            Action::Pause { secs } => assert_eq!(secs, 2 * attempt),
            _ => panic!("no pause"),
        }
        let action = step(&mut task, Event::Paused);
        if attempt == 3 {
            assert_eq!(sent(action), "");
        } else {
            assert!(matches!(action, Action::Request { timeout_secs: 15, .. }));
        }
    }
}

#[test]
fn a_failure_is_made_good_by_a_later_attempt() {
    let mut task = begun();
    assert!(matches!(step(&mut task, Event::Answer(404)), Action::Pause { secs: 2 }));
    assert!(matches!(step(&mut task, Event::Paused), Action::Request { .. }));
    assert!(matches!(step(&mut task, Event::Answer(200)), Action::ReadBody));
    assert!(matches!(step(&mut task, Event::Body("{}".to_string())), Action::Request { .. }));
    assert!(matches!(step(&mut task, Event::TimedOut), Action::Pause { secs: 2 }));
    assert!(matches!(step(&mut task, Event::Paused), Action::Request { .. }));
    assert!(matches!(step(&mut task, Event::Answer(200)), Action::ReadBody));
    let action = step(&mut task, Event::Body(PAGE.to_string()));
    assert_eq!(sent(action), "From the page.");
}

#[test]
fn the_longest_run_has_seventeen_events_and_one_record() {
    let (mut task, _) = Task::start("Film".to_string(), 42);
    let mut events: u64 = 0;
    let mut records: u64 = 0;
    let mut paused: u64 = 0;
    loop {
        let event = match task.progress() {
            Progress::Requested { .. } => Event::Answer(200),
            Progress::Answered { source: Source::Data, attempt: 3 } => Event::Body("[]".to_string()),
            Progress::Answered { .. } => Event::NoBody,
            Progress::Pausing { .. } => Event::Paused,
            Progress::Finished => break,
        };
        events += 1;
        match step(&mut task, event) {
            Action::Send { .. } => records += 1,
            Action::Pause { secs } => paused += secs,
            _ => {}
        }
    }
    assert_eq!(events, 17);
    assert_eq!(records, 1);
    assert_eq!(paused, 18);
}

#[test]
fn only_statuses_of_success_lead_to_a_body() {
    for status in [100, 199, 300, 301, 404, 500] {
        let mut task = begun();
        assert!(matches!(step(&mut task, Event::Answer(status)), Action::Pause { secs: 2 }));
    }
    for status in [200, 204, 299] {
        let mut task = begun();
        assert!(matches!(step(&mut task, Event::Answer(status)), Action::ReadBody));
    }
}

#[test]
fn a_task_waits_for_what_it_asked_for() {
    let mut task = begun();
    assert!(task.accepts(&Event::Answer(500)));
    assert!(task.accepts(&Event::NoAnswer));
    assert!(task.accepts(&Event::TimedOut));
    assert!(!task.accepts(&Event::Body(String::new())));
    assert!(!task.accepts(&Event::NoBody));
    assert!(!task.accepts(&Event::Paused));
    step(&mut task, Event::NoAnswer);
    assert!(task.accepts(&Event::Paused));
    assert!(!task.accepts(&Event::Answer(200)));
    let (task, _) = data_is_read("");
    assert!(!task.accepts(&Event::Answer(200)));
    assert!(!task.accepts(&Event::Paused));
}

/// Runs a task that reads each document at the given attempt, if that is one of the three,
/// and gives back its text and how often it asked for either document and paused.
fn counted(name: &str, data_at: u64, page_at: u64) -> (String, u64, u64, u64) {
    let (mut task, mut action) = Task::start(name.to_string(), 42);
    let data_url = format!("https://dbpedia.org/data/{}.json", name);
    let page_url = format!("http://dbpedia.org/resource/{}", name);
    let (mut data, mut page, mut paused) = (0, 0, 0);
    loop {
        match action {
            Action::Request { url, .. } if url == data_url => data += 1,
            Action::Request { url, .. } if url == page_url => page += 1,
            Action::Request { .. } => panic!("another address"),
            Action::Pause { secs } => paused += secs,
            Action::ReadBody => {}
            Action::Send { .. } => return (sent(action), data, page, paused),
        }
        let event = match task.progress() {
            Progress::Requested { source: Source::Data, attempt } if attempt != data_at => {
                Event::NoAnswer
            }
            Progress::Requested { source: Source::Page, attempt } if attempt != page_at => {
                Event::TimedOut
            }
            Progress::Requested { .. } => Event::Answer(200),
            Progress::Answered { source: Source::Data, .. } => Event::Body("{}".to_string()),
            Progress::Answered { source: Source::Page, .. } => Event::Body(PAGE.to_string()),
            Progress::Pausing { .. } => Event::Paused,
            Progress::Finished => panic!("nothing was sent"),
        };
        action = step(&mut task, event);
    }
}

#[test]
fn each_document_is_asked_for_as_often_as_it_takes() {
    let pauses = [0, 2, 6, 12];
    for data_at in 1..4 {
        for page_at in 1..4 {
            let (text, data, page, paused) = counted("Film", data_at, page_at);
            assert_eq!(text, "From the page.");
            assert_eq!((data, page), (data_at, page_at));
            let failed = [(data_at - 1) as usize, (page_at - 1) as usize];
            assert_eq!(paused, pauses[failed[0]] + pauses[failed[1]]);
        }
        let paused = pauses[(data_at - 1) as usize] + 12;
        assert_eq!(counted("Film", data_at, 4), (String::new(), data_at, 3, paused));
    }
    assert_eq!(counted("Film", 4, 1), (String::new(), 3, 0, 12));
}

#[test]
fn the_same_page_gives_the_same_text_to_any_resource() {
    assert_eq!(counted("Film", 1, 1).0, counted("Another_Film", 3, 2).0);
}
