use epycell::kernel::{
    cell_event, collect_event, collect_media, output_kinds, CellEvent, IopubContent, IopubMessage, MediaItem, Output,
};

fn reply(parent: Option<&str>, content: IopubContent) -> IopubMessage {
    IopubMessage { parent_msg_id: parent.map(|p| p.to_string()), content }
}

#[test]
fn png_is_decoded_and_placeholder_dropped() {
    let mut outs = Vec::new();
    collect_media(
        &[MediaItem::Plain("<Figure size 640x480>".to_string()), MediaItem::Png("aGVsbG8=\n".to_string())],
        &mut outs,
    );
    assert_eq!(outs, vec![Output::Png(b"hello".to_vec())]);
}

#[test]
fn plain_text_kept_without_png() {
    let mut outs = vec![Output::Text("earlier".to_string())];
    collect_media(&[MediaItem::Other, MediaItem::Plain("42".to_string())], &mut outs);
    assert_eq!(outs, vec![Output::Text("earlier".to_string()), Output::Text("42".to_string())]);
}

#[test]
fn bad_png_reports_decode_error() {
    let mut outs = Vec::new();
    collect_media(&[MediaItem::Png("!!!!".to_string())], &mut outs);
    let err = base64::Engine::decode(&base64::engine::general_purpose::STANDARD, "!!!!").unwrap_err();
    assert_eq!(outs, vec![Output::Text(format!("<png decode error: {err}>"))]);
}

#[test]
fn events_for_other_requests_are_ignored() {
    let m = reply(Some("other"), IopubContent::Stream { name: "Stdout".to_string(), text: "x".to_string() });
    assert_eq!(cell_event(m, "mine"), None);
    let m = reply(None, IopubContent::Status { idle: true });
    assert_eq!(cell_event(m, "mine"), None);
}

#[test]
fn stream_error_and_idle_events() {
    let m = reply(Some("mine"), IopubContent::Stream { name: "Stdout".to_string(), text: "hi\n".to_string() });
    assert_eq!(
        cell_event(m, "mine"),
        Some(CellEvent::Output(Output::Stream { name: "Stdout".to_string(), text: "hi\n".to_string() }))
    );
    let m = reply(
        Some("mine"),
        IopubContent::Error { ename: "E".to_string(), evalue: "v".to_string(), traceback: vec!["t".to_string()] },
    );
    assert_eq!(
        cell_event(m, "mine"),
        Some(CellEvent::Output(Output::Error {
            ename: "E".to_string(),
            evalue: "v".to_string(),
            traceback: vec!["t".to_string()],
        }))
    );
    assert_eq!(cell_event(reply(Some("mine"), IopubContent::Status { idle: true }), "mine"), Some(CellEvent::Idle));
    assert_eq!(cell_event(reply(Some("mine"), IopubContent::Status { idle: false }), "mine"), None);
    assert_eq!(cell_event(reply(Some("mine"), IopubContent::Other), "mine"), None);
}

#[test]
fn result_and_display_give_first_output() {
    let m = reply(
        Some("mine"),
        IopubContent::ExecuteResult(vec![MediaItem::Plain("1".to_string()), MediaItem::Plain("2".to_string())]),
    );
    assert_eq!(cell_event(m, "mine"), Some(CellEvent::Output(Output::Text("1".to_string()))));
    let m = reply(
        Some("mine"),
        IopubContent::DisplayData(vec![MediaItem::Plain("fig".to_string()), MediaItem::Png("AAEC".to_string())]),
    );
    assert_eq!(cell_event(m, "mine"), Some(CellEvent::Output(Output::Png(vec![0, 1, 2]))));
    let m = reply(Some("mine"), IopubContent::DisplayData(vec![MediaItem::Other]));
    assert_eq!(cell_event(m, "mine"), None);
}

#[test]
fn output_kinds_of_a_run() {
    let outs = vec![
        Output::Text("t".to_string()),
        Output::Stream { name: "Stdout".to_string(), text: "p".to_string() },
    ];
    assert_eq!(output_kinds(&outs), (true, false));
    let outs = vec![Output::Png(vec![1]), Output::Stream { name: "Stdout".to_string(), text: "p".to_string() }];
    assert_eq!(output_kinds(&outs), (true, true));
    assert_eq!(output_kinds(&[]), (false, false));
}

#[test]
fn collecting_a_run() {
    let mut outs = Vec::new();
    assert!(!collect_event(&mut outs, None));
    assert!(!collect_event(&mut outs, Some(CellEvent::Output(Output::Text("a".to_string())))));
    assert!(collect_event(&mut outs, Some(CellEvent::Idle)));
    assert_eq!(outs, vec![Output::Text("a".to_string())]);
}
