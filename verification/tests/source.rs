use container_mirror::docker::{
    containers, logs, Container, ContainerSummary, LogOutput, SourceError, Stream,
};

fn summary(id: &str, name: &str) -> ContainerSummary {
    ContainerSummary {
        id: Some(id.to_string()),
        names: Some(vec![name.to_string()]),
        image: Some("img".to_string()),
        command: Some("cmd".to_string()),
        status: Some("Up".to_string()),
    }
}

fn container(id: &str, name: &str) -> Container {
    Container {
        id: id.to_string(),
        name: name.to_string(),
        image: "img".to_string(),
        command: "cmd".to_string(),
        status: "Up".to_string(),
    }
}

#[test]
fn containers_keeps_complete_records_in_order() {
    let records = vec![summary("1", "/a"), summary("2", "/b"), summary("3", "/c")];
    assert_eq!(
        containers(&records),
        vec![container("1", "/a"), container("2", "/b"), container("3", "/c")]
    );
    assert_eq!(containers(&Vec::new()), Vec::new());
}

#[test]
fn containers_takes_the_first_name() {
    let mut record = summary("1", "/first");
    record.names = Some(vec!["/first".to_string(), "/second".to_string()]);
    assert_eq!(containers(&vec![record]), vec![container("1", "/first")]);
}

#[test]
fn containers_skips_a_record_with_any_field_missing() {
    let mut no_id = summary("1", "/a");
    no_id.id = None;
    let mut no_names = summary("2", "/b");
    no_names.names = None;
    let mut empty_names = summary("3", "/c");
    empty_names.names = Some(Vec::new());
    let mut no_image = summary("4", "/d");
    no_image.image = None;
    let mut no_command = summary("5", "/e");
    no_command.command = None;
    let mut no_status = summary("6", "/f");
    no_status.status = None;
    let records = vec![
        no_id,
        summary("7", "/g"),
        no_names,
        empty_names,
        no_image,
        summary("8", "/h"),
        no_command,
        no_status,
    ];
    assert_eq!(containers(&records), vec![container("7", "/g"), container("8", "/h")]);
}

#[test]
fn logs_keeps_the_frames_that_arrived() {
    let frames = vec![
        Ok(LogOutput::StdOut { message: b"one".to_vec() }),
        Err(SourceError::Unavailable),
        Ok(LogOutput::StdErr { message: b"two".to_vec() }),
        Err(SourceError::NotFound),
        Ok(LogOutput::Console { message: b"three".to_vec() }),
    ];
    assert_eq!(
        logs(&frames),
        vec![
            LogOutput::StdOut { message: b"one".to_vec() },
            LogOutput::StdErr { message: b"two".to_vec() },
            LogOutput::Console { message: b"three".to_vec() },
        ]
    );
}

#[test]
fn logs_of_a_failed_stream_are_empty() {
    assert_eq!(logs(&vec![Err(SourceError::NotFound)]), Vec::new());
    assert_eq!(logs(&Vec::new()), Vec::new());
}

#[test]
fn log_output_gives_its_bytes_and_stream() {
    let frame = LogOutput::StdIn { message: vec![1, 2, 3] };
    assert_eq!(frame.message(), &vec![1, 2, 3]);
    assert_eq!(frame.stream(), Stream::StdIn);
    assert_eq!(LogOutput::StdOut { message: vec![] }.stream(), Stream::StdOut);
    assert_eq!(LogOutput::StdErr { message: vec![] }.stream(), Stream::StdErr);
    assert_eq!(LogOutput::Console { message: vec![] }.stream(), Stream::Console);
    assert_eq!(frame.clone(), frame);
}

#[test]
fn a_record_gives_its_container_when_complete() {
    assert_eq!(summary("1", "/a").container(), Some(container("1", "/a")));
    let mut broken = summary("1", "/a");
    broken.command = None;
    assert_eq!(broken.container(), None);
}

#[test]
fn a_status_of_the_daemon_says_what_failed() {
    assert_eq!(SourceError::from_status(404), SourceError::NotFound);
    assert_eq!(SourceError::from_status(500), SourceError::Unavailable);
    assert_eq!(SourceError::from_status(409), SourceError::Unavailable);
    assert_eq!(SourceError::from_status(0), SourceError::Unavailable);
}
