use rc_car::api::web::{camera_probe_url, camera_status_reply, on_ws_event, WsAction, WsEvent};
use rc_car::app::controller::RemoteCmd;

#[test]
fn camera_url_from_query() {
    assert_eq!(
        camera_probe_url("/camerastatus?ip=192.168.1.50"),
        Some("http://192.168.1.50:8080/videostatus".to_string())
    );
    assert_eq!(
        camera_probe_url("/camerastatus?ip=10.0.0.2&x=1"),
        Some("http://10.0.0.2:8080/videostatus".to_string())
    );
    assert_eq!(
        camera_probe_url("/camerastatus?a=1&ip= cam.local &b"),
        Some("http://cam.local:8080/videostatus".to_string())
    );
}

#[test]
fn camera_url_needs_an_address() {
    assert_eq!(camera_probe_url("/camerastatus"), None);
    assert_eq!(camera_probe_url("/camerastatus?ip="), None);
    assert_eq!(camera_probe_url("/camerastatus?ip=&x=1"), None);
    assert_eq!(camera_probe_url("/camerastatus?ip=  "), None);
    assert_eq!(camera_probe_url(""), None);
}

#[test]
fn camera_replies() {
    assert_eq!(camera_status_reply(true), (200, "ok"));
    assert_eq!(camera_status_reply(false), (502, "error"));
}

#[test]
fn ws_connection_events() {
    assert_eq!(on_ws_event(&WsEvent::Opened), WsAction::Nothing);
    assert_eq!(
        on_ws_event(&WsEvent::Closed),
        WsAction::Command(RemoteCmd::Stop)
    );
}

#[test]
fn ws_frame_lengths() {
    assert_eq!(on_ws_event(&WsEvent::Pending(0)), WsAction::Nothing);
    assert_eq!(on_ws_event(&WsEvent::Pending(1)), WsAction::Receive(1));
    assert_eq!(on_ws_event(&WsEvent::Pending(32)), WsAction::Receive(32));
    assert_eq!(on_ws_event(&WsEvent::Pending(33)), WsAction::Nothing);
}

#[test]
fn ws_payloads() {
    assert_eq!(
        on_ws_event(&WsEvent::Payload(b"F:60".to_vec())),
        WsAction::Command(RemoteCmd::Drive(60))
    );
    assert_eq!(
        on_ws_event(&WsEvent::Payload(b"\x00SL:30\n".to_vec())),
        WsAction::Command(RemoteCmd::SpinLeft(30))
    );
    assert_eq!(
        on_ws_event(&WsEvent::Payload(vec![0xff, 0x46])),
        WsAction::Command(RemoteCmd::Stop)
    );
    assert_eq!(
        on_ws_event(&WsEvent::Payload(b"B:-128".to_vec())),
        WsAction::Command(RemoteCmd::Drive(-75))
    );
}
