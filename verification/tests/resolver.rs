use jj::error::AppError;
use jj::jenkins::{
    parse_item, JenkinsQueueItem, JenkinsQueueItemExecutable, JenkinsQueueItemTask, ResolveStep,
};

fn queue_item(
    executable: Option<JenkinsQueueItemExecutable>,
    why: Option<String>,
) -> JenkinsQueueItem {
    JenkinsQueueItem {
        class: String::from("hudson.model.Queue$LeftItem"),
        actions: Vec::new(),
        blocked: false,
        buildable: false,
        executable,
        id: 590249,
        in_queue_since: 0,
        params: String::new(),
        task: JenkinsQueueItemTask {
            class: String::from("hudson.model.FreeStyleProject"),
            name: String::from("x"),
            url: String::from("http://h/job/x/"),
            color: String::from("blue"),
        },
        url: String::from("http://h/queue/item/590249/"),
        why,
        timestamp: None,
    }
}

#[test]
fn executable_resolves_immediately() {
    let item = queue_item(
        Some(JenkinsQueueItemExecutable {
            class: String::from("hudson.model.FreeStyleBuild"),
            number: 7,
            url: String::from("http://h/job/x/7/"),
        }),
        None,
    );
    assert_eq!(
        parse_item(&item),
        Ok(ResolveStep::Resolved(String::from("http://h/job/x/7/")))
    );
}

#[test]
fn executable_wins_even_with_a_why() {
    let item = queue_item(
        Some(JenkinsQueueItemExecutable {
            class: String::from("hudson.model.FreeStyleBuild"),
            number: 7,
            url: String::from("http://h/job/x/7/"),
        }),
        Some(String::from("Finished waiting")),
    );
    assert_eq!(
        parse_item(&item),
        Ok(ResolveStep::Resolved(String::from("http://h/job/x/7/")))
    );
}

#[test]
fn finished_waiting_asks_for_one_short_sleep() {
    let item = queue_item(None, Some(String::from("Finished waiting")));
    assert_eq!(parse_item(&item), Ok(ResolveStep::Wait(1000)));
}

#[test]
fn quiet_period_asks_for_the_hinted_sleep() {
    let item = queue_item(
        None,
        Some(String::from("In the quiet period. Expires in 5 secs")),
    );
    assert_eq!(parse_item(&item), Ok(ResolveStep::Wait(5000)));
}

#[test]
fn unreadable_why_fails_with_the_text() {
    let item = queue_item(None, Some(String::from("???")));
    assert_eq!(
        parse_item(&item),
        Err(AppError::JenkinsEnqueueWaitError(String::from("???")))
    );
}

#[test]
fn neither_executable_nor_why_is_ambiguous() {
    let item = queue_item(None, None);
    assert_eq!(
        parse_item(&item),
        Err(AppError::JenkinsEnqueueDeserializeError(String::from(
            "http://h/queue/item/590249/"
        )))
    );
}
