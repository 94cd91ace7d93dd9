use jj::error::AppError;
use jj::jenkins::parse_why;

#[test]
fn whole_seconds_hint() {
    let why = String::from("In the quiet period. Expires in 5 secs");
    assert_eq!(parse_why(&why), Ok(5000));
}

#[test]
fn milliseconds_hint() {
    let why = String::from("In the quiet period. Expires in 250 ms");
    assert_eq!(parse_why(&why), Ok(250));
}

#[test]
fn finished_waiting_hint() {
    let why = String::from("Finished waiting");
    assert_eq!(parse_why(&why), Ok(1000));
}

#[test]
fn unrecognized_hint_carries_original_text() {
    let why = String::from("???");
    assert_eq!(
        parse_why(&why),
        Err(AppError::JenkinsEnqueueWaitError(String::from("???")))
    );
}

#[test]
fn dotted_seconds_hint_keeps_literal_millis() {
    let why = String::from("In the quiet period. Expires in 3.15 secs");
    assert_eq!(parse_why(&why), Ok(3015));
}

#[test]
fn dotted_seconds_hint_long_remainder() {
    let why = String::from("In the quiet period. Expires in 1.234 secs");
    assert_eq!(parse_why(&why), Ok(1234));
}

#[test]
fn dotted_millis_is_not_a_form() {
    let why = String::from("In the quiet period. Expires in 1.234 ms");
    assert_eq!(
        parse_why(&why),
        Err(AppError::JenkinsEnqueueWaitError(why.clone()))
    );
}

#[test]
fn singular_sec_is_not_recognized() {
    let why = String::from("In the quiet period. Expires in 3 sec");
    assert_eq!(
        parse_why(&why),
        Err(AppError::JenkinsEnqueueWaitError(why.clone()))
    );
}

#[test]
fn empty_hint_is_unrecognized() {
    let why = String::new();
    assert_eq!(
        parse_why(&why),
        Err(AppError::JenkinsEnqueueWaitError(String::new()))
    );
}

#[test]
fn prefix_alone_is_unrecognized() {
    let why = String::from("In the quiet period. Expires in ");
    assert_eq!(
        parse_why(&why),
        Err(AppError::JenkinsEnqueueWaitError(why.clone()))
    );
}

#[test]
fn missing_number_is_unrecognized() {
    let why = String::from("In the quiet period. Expires in  secs");
    assert_eq!(
        parse_why(&why),
        Err(AppError::JenkinsEnqueueWaitError(why.clone()))
    );
}

#[test]
fn trailing_text_is_unrecognized() {
    let why = String::from("In the quiet period. Expires in 5 secs!");
    assert_eq!(
        parse_why(&why),
        Err(AppError::JenkinsEnqueueWaitError(why.clone()))
    );
}

#[test]
fn case_matters() {
    let why = String::from("finished waiting");
    assert_eq!(
        parse_why(&why),
        Err(AppError::JenkinsEnqueueWaitError(why.clone()))
    );
}

#[test]
fn largest_millisecond_hint_is_exact() {
    let why = String::from("In the quiet period. Expires in 18446744073709551615 ms");
    assert_eq!(parse_why(&why), Ok(u64::MAX));
}

#[test]
fn oversized_millisecond_hint_is_a_number_error() {
    let why = String::from("In the quiet period. Expires in 18446744073709551616 ms");
    assert_eq!(
        parse_why(&why),
        Err(AppError::JenkinsEnqueueSecondsParseError(why.clone()))
    );
}

#[test]
fn oversized_seconds_hint_is_a_number_error() {
    let why = String::from("In the quiet period. Expires in 99999999999999999999 secs");
    assert_eq!(
        parse_why(&why),
        Err(AppError::JenkinsEnqueueSecondsParseError(why.clone()))
    );
}
