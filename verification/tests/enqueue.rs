use jj::error::AppError;
use jj::jenkins::{build_trigger_url, enqueue_location, queue_item_api_url, BufferedResponse};

fn response(headers: &[(&str, &str)], status: u16) -> BufferedResponse {
    BufferedResponse {
        headers: headers
            .iter()
            .map(|(k, v)| (String::from(*k), String::from(*v)))
            .collect(),
        status,
        text: String::new(),
    }
}

#[test]
fn location_header_is_returned_verbatim() {
    let resp = response(&[("location", "http://h/queue/item/5/")], 201);
    assert_eq!(
        enqueue_location(&resp),
        Ok(String::from("http://h/queue/item/5/"))
    );
}

#[test]
fn missing_location_is_a_protocol_error() {
    let resp = response(&[("content-length", "0")], 201);
    assert_eq!(
        enqueue_location(&resp),
        Err(AppError::JenkinsEnqueueLocationMissingError(String::from(
            "201"
        )))
    );
}

#[test]
fn trigger_url_names_the_job() {
    assert_eq!(
        build_trigger_url("http://h", "x"),
        "http://h/job/x/build"
    );
}

#[test]
fn queue_item_status_url_gets_the_api_suffix() {
    assert_eq!(
        queue_item_api_url("http://h/queue/item/5"),
        "http://h/queue/item/5/api/json"
    );
}
