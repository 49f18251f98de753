use ardour_mcp::action::{
    explain_send_error, Action, AfterAwait, AfterListing, AfterSend, AfterSleep, Number,
    SendFailure,
};
use ardour_mcp::automation::{
    find_route, find_uri, get_plugin_uri_from_name, read_automation_value_tool,
    set_region_parameter_tool, write_track_automation_tool,
};
use ardour_mcp::commands::{
    access_action_tool, insert_strip_plugin_tool, locate_tool, save_state_tool,
    set_selected_strip_pan_stereo_width_tool, set_strip_pan_stereo_width_tool,
    set_strip_plugin_active_tool, set_strip_polarity_tool, set_strip_send_enable_tool,
    set_strip_send_fader_tool, set_strip_send_gain_db_tool, set_track_gain_abs_tool,
    set_track_gain_db_tool, set_track_mute_tool, set_track_rec_enable_tool, set_track_solo_tool,
    set_track_trim_abs_tool, set_track_trim_db_tool, set_transport_speed_tool,
    transport_play_tool, write_plugin_automation_tool,
};
use ardour_mcp::fader::{gain_fader, trim_fader};
use ardour_mcp::meters::{get_meter_readings_tool, list_strip_plugins_tool, names_meter};
use ardour_mcp::osc::{message, OscArg, OscMessage, OscPacket};
use ardour_mcp::pending::{LoopRange, PendingRequests, Reply, WaitError, Waiting};
use ardour_mcp::feedback::handle_osc_packet;
use ardour_mcp::reply::{Document, ToolReply};
use ardour_mcp::selection::{
    get_plugin_parameters_tool, select_plugin_tool, select_strip_tool,
    set_strip_plugin_parameter_tool,
};
use ardour_mcp::server::get_info;
use ardour_mcp::single::Single;
use ardour_mcp::state::{ArdourState, PlaybackStatus};
use ardour_mcp::transport::{
    get_loop_range_tool, get_session_sample_rate_tool, get_transport_state_tool,
    request_strip_list_tool,
};

fn single(v: f32) -> Single {
    Single { bits: v.to_bits() }
}

fn number(v: f32) -> Number {
    Number { value: single(v), text: format!("{}", v) }
}

fn failed(text: &str) -> Result<(), SendFailure> {
    Err(SendFailure { text: text.to_string(), debug: format!("<{}>", text) })
}

fn show(m: &OscMessage) -> String {
    let mut t = m.addr.clone();
    for a in &m.args {
        let part = match a {
            OscArg::Int(i) => format!(" i{}", i),
            OscArg::Long(i) => format!(" h{}", i),
            OscArg::Float(f) => format!(" f{}", f32::from_bits(f.bits)),
            OscArg::Double(d) => format!(" d{}", f64::from_bits(*d)),
            OscArg::Text(s) => format!(" s{}", s),
            OscArg::Other => " ?".to_string(),
        };
        t.push_str(&part);
    }
    t
}

fn hear(state: &mut ArdourState, addr: &str, args: Vec<OscArg>) {
    let mut pending = PendingRequests::<u32>::new();
    let packet = OscPacket::Message(message(addr, args));
    let told = handle_osc_packet(state, &mut pending, &packet);
    assert!(told.is_empty());
}

/// The message that is sent and how it goes on.
fn sending(a: Action) -> (String, AfterSend) {
    match a {
        Action::Send(m, next) => (show(&m), next),
        other => panic!("expected a message, got {:?}", other),
    }
}

fn sleeping(a: Action) -> (u64, AfterSleep) {
    match a {
        Action::Sleep(ms, next) => (ms, next),
        other => panic!("expected a pause, got {:?}", other),
    }
}

fn waiting(a: Action) -> (Waiting, u64, AfterAwait) {
    match a {
        Action::Await(w, ms, next) => (w, ms, next),
        other => panic!("expected a wait, got {:?}", other),
    }
}

fn reply(a: Action) -> ToolReply {
    match a {
        Action::Finish(r) => r,
        other => panic!("expected a reply, got {:?}", other),
    }
}

fn success(a: Action) -> String {
    match reply(a) {
        ToolReply::Success(t) => t,
        other => panic!("expected success, got {:?}", other),
    }
}

fn error(a: Action) -> String {
    match reply(a) {
        ToolReply::Error(t) => t,
        other => panic!("expected an error, got {:?}", other),
    }
}

fn document(a: Action) -> Document {
    match reply(a) {
        ToolReply::Document(d) => d,
        other => panic!("expected a document, got {:?}", other),
    }
}

/// Runs a tool that sends one message: the message, the reply, and the error.
fn one_message(make: fn() -> Action) -> (String, String, String) {
    let mut state = ArdourState::new();
    let (sent, next) = sending(make());
    let done = success(next.sent(Ok(()), &mut state));
    let (_, next) = sending(make());
    let not_done = error(next.sent(failed("no"), &mut state));
    (sent, done, not_done)
}

#[test]
fn test_get_server_info() {
    let info = get_info("0.1.0".to_string());
    assert_eq!(info.name, "Ardour MCP Server (Rust)");
    assert_eq!(info.version, "0.1.0".to_string());
    assert_eq!(info.protocol_version, "2024-11-05");
    assert!(info.tools_list_changed.is_some(), "Tools capability should be Some");
    assert_eq!(
        Some(info.instructions),
        Some("This server controls Ardour DAW transport functions.".to_string())
    );
    assert_eq!(info.tools_list_changed, Some(false));
    assert_eq!(info.resources_subscribe, Some(false));
    assert_eq!(info.resources_list_changed, Some(false));
}

#[test]
fn test_transport_play_tool_reports_success_or_osc_error() {
    let mut state = ArdourState::new();
    let (sent, next) = sending(transport_play_tool());
    assert_eq!(sent, "/transport_play");
    match reply(next.sent(Ok(()), &mut state)) {
        ToolReply::Success(text) => assert_eq!(text, "Playback started"),
        other => panic!("Expected text for success, got {:?}", other),
    }
    let (_, next) = sending(transport_play_tool());
    match reply(next.sent(failed("gone"), &mut state)) {
        ToolReply::Error(text) => {
            assert!(!text.is_empty(), "Error CallToolResult should have content explaining the error.");
            assert_eq!(text, "OSC send error: gone");
        }
        other => panic!("Expected an error result, got {:?}", other),
    }
}

#[test]
fn test_set_track_mute_tool_arg_parsing() {
    let mut state = ArdourState::new();
    let (sent, next) = sending(set_track_mute_tool(1, true));
    assert_eq!(sent, "/strip/mute i1 i1");
    let text = success(next.sent(Ok(()), &mut state));
    assert!(!text.is_empty(), "Successful mute should have descriptive content.");
    assert_eq!(text, "Track 1 mute state set to true");
    let (sent, next) = sending(set_track_mute_tool(-3, false));
    assert_eq!(sent, "/strip/mute i-3 i0");
    assert_eq!(error(next.sent(failed("x"), &mut state)), "OSC send error for /strip/mute: x");
}

#[test]
fn test_set_transport_speed_tool_arg_validation() {
    let mut state = ArdourState::new();
    match set_transport_speed_tool(number(10.0)) {
        Action::Finish(ToolReply::InvalidParams(text)) => {
            assert_eq!(text, "Invalid transport speed: 10. Must be between -8.0 and 8.0.")
        }
        other => panic!("Expected an McpError for out-of-range speed, but got {:?}", other),
    }
    assert!(
        matches!(
            set_transport_speed_tool(number(-8.5)),
            Action::Finish(ToolReply::InvalidParams(_))
        )
    );
    let (sent, next) = sending(set_transport_speed_tool(number(1.5)));
    assert_eq!(sent, "/set_transport_speed f1.5");
    let text = success(next.sent(Ok(()), &mut state));
    assert!(!text.is_empty(), "Successful speed set should have descriptive content.");
    assert_eq!(text, "Transport speed set to 1.5");
    for edge in vec![-8.0f32, 8.0, f32::NAN] {
        assert!(matches!(set_transport_speed_tool(number(edge)), Action::Send(_, _)));
    }
}

#[test]
fn plain_commands() {
    assert_eq!(
        one_message(|| save_state_tool()),
        (
            "/save_state".to_string(),
            "Session state saved".to_string(),
            "OSC send error: no".to_string()
        )
    );
    assert_eq!(
        one_message(|| locate_tool(5_000_000_000, 1)),
        (
            "/locate h5000000000 i1".to_string(),
            "Located to sample 5000000000 with roll state 1".to_string(),
            "OSC send error for /locate: no".to_string()
        )
    );
}

#[test]
fn switches_take_zero_or_one() {
    assert_eq!(
        error(set_track_solo_tool(1, 2)),
        "Invalid solo_st value: 2. Must be 0 (off) or 1 (on)."
    );
    assert_eq!(
        error(set_track_rec_enable_tool(1, -1)),
        "Invalid rec_st value: -1. Must be 0 (off) or 1 (on)."
    );
    assert_eq!(
        one_message(|| set_track_solo_tool(4, 1)).1,
        "Track 4 solo state set to 1"
    );
    let (sent, done, not_done) = one_message(|| set_track_rec_enable_tool(4, 0));
    assert_eq!(sent, "/strip/recenable i4 i0");
    assert_eq!(done, "Track 4 record enable state set to 0");
    assert_eq!(not_done, "OSC send error for /strip/recenable: no");
}

#[test]
fn gain_moves_the_fader() {
    for v in vec![0.0f32, 0.5, 1.0, 1.9999999, 2.0, 1.0e-40, 1.4e-45, 1.1754944e-38, 3.0e-39] {
        let expected = (v / 2.0).clamp(0.0, 1.0);
        assert_eq!(gain_fader(single(v)).bits, expected.to_bits());
    }
    assert_eq!(gain_fader(single(-0.0)).bits, (-0.0f32).to_bits());
    let mut state = ArdourState::new();
    let (sent, next) = sending(set_track_gain_abs_tool(2, number(1.0), "0.5".to_string()));
    assert_eq!(sent, "/strip/fader i2 f0.5");
    assert_eq!(
        success(next.sent(Ok(()), &mut state)),
        "Track 2 fader position set to 0.5 (from gain_abs 1)"
    );
    assert_eq!(
        error(set_track_gain_abs_tool(2, number(2.5), String::new())),
        "Invalid gain_abs value: 2.5. Must be between 0.0 and 2.0 (maps to fader 0.0-1.0)."
    );
}

#[test]
fn trim_moves_the_fader() {
    let mut v = 0.1f32;
    while v <= 10.0 {
        let expected = ((v - 0.1) / 9.9).clamp(0.0, 1.0);
        assert_eq!(trim_fader(single(v)).bits, expected.to_bits(), "at {}", v);
        v = v * 1.013 + 0.0007;
    }
    for v in vec![0.1f32, 0.10000001, 0.2, 1.0, 5.05, 9.9, 9.999999, 10.0] {
        let expected = ((v - 0.1) / 9.9).clamp(0.0, 1.0);
        assert_eq!(trim_fader(single(v)).bits, expected.to_bits());
    }
    assert_eq!(trim_fader(single(0.1)), single(0.0));
    assert_eq!(trim_fader(single(10.0)), single(1.0));
    assert!(trim_fader(single(1.0)).bits < trim_fader(single(1.5)).bits);
    let (sent, _) = sending(set_track_trim_abs_tool(7, number(10.0), "1".to_string()));
    assert_eq!(sent, "/strip/trim_fader i7 f1");
    assert_eq!(
        error(set_track_trim_abs_tool(7, number(0.05), String::new())),
        "Invalid trim_abs value: 0.05. Must be between 0.1 and 10.0."
    );
}

#[test]
fn decibels() {
    let mut state = ArdourState::new();
    assert_eq!(
        error(set_track_gain_db_tool(1, number(6.5))),
        "Invalid gain_db value: 6.5. Must be between -400.0 and 6.0."
    );
    assert_eq!(
        error(set_track_gain_db_tool(1, number(f32::NAN))),
        "Invalid gain_db value: NaN. Must be between -400.0 and 6.0."
    );
    let (sent, next) = sending(set_track_gain_db_tool(1, number(-3.5)));
    assert_eq!(sent, "/strip/gain i1 f-3.5");
    assert_eq!(success(next.sent(Ok(()), &mut state)), "Track 1 gain (dB) set to -3.5");
    assert_eq!(
        error(set_track_trim_db_tool(1, number(-21.0))),
        "Invalid trim_db value: -21. Must be between -20.0 and 20.0."
    );
    let (sent, next) = sending(set_track_trim_db_tool(3, number(20.0)));
    assert_eq!(sent, "/strip/trimdB i3 f20");
    match reply(next.sent(failed("down"), &mut state)) {
        ToolReply::InternalError(t) => {
            assert_eq!(t, "Failed to send OSC message /strip/trimdB for rid 3: <down>")
        }
        other => panic!("{:?}", other),
    }
}

#[test]
fn menu_actions() {
    let mut state = ArdourState::new();
    assert_eq!(error(access_action_tool(String::new())), "action_name cannot be empty.");
    let (sent, next) = sending(access_action_tool("Editor/zoom-to-session".to_string()));
    assert_eq!(sent, "/access_action sEditor/zoom-to-session");
    assert_eq!(
        success(next.sent(Ok(()), &mut state)),
        "Successfully sent OSC message /access_action with action_name 'Editor/zoom-to-session'"
    );
}

#[test]
fn plugins_are_turned_on_and_inserted() {
    assert_eq!(
        error(set_strip_plugin_active_tool(1, 0, true)),
        "Invalid plugin_slot: must be a positive integer."
    );
    let (sent, done, not_done) = one_message(|| set_strip_plugin_active_tool(1, 2, false));
    assert_eq!(sent, "/strip/plugin/deactivate i1 i2");
    assert_eq!(done, "Strip 1 plugin in slot 2 command (deactivate) sent.");
    assert_eq!(not_done, "OSC send error for /strip/plugin/deactivate: no");
    assert_eq!(
        error(insert_strip_plugin_tool(0, "u".to_string(), None)),
        "Invalid rid: must be a positive integer."
    );
    assert_eq!(
        one_message(|| insert_strip_plugin_tool(1, "urn:x".to_string(), None)).1,
        "Plugin insertion command sent: urn:x on strip 1 at slot auto-append"
    );
    let (sent, done, _) = one_message(|| insert_strip_plugin_tool(1, "urn:x".to_string(), Some(3)));
    assert_eq!(sent, "/strip/plugin/insert i1 surn:x i3");
    assert_eq!(done, "Plugin insertion command sent: urn:x on strip 1 at slot 3");
}

#[test]
fn widths_sends_and_polarity() {
    assert_eq!(
        error(set_strip_pan_stereo_width_tool(1, number(1.5))),
        "Invalid width: must be between 0.0 and 1.0 (inclusive)."
    );
    assert_eq!(
        error(set_selected_strip_pan_stereo_width_tool(number(-0.5))),
        "Invalid width: must be between 0.0 and 1.0 (inclusive)."
    );
    assert_eq!(
        one_message(|| set_strip_pan_stereo_width_tool(1, number(0.5))).1,
        "Strip 1 stereo pan width set to 0.5."
    );
    let (sent, done, _) = one_message(|| set_selected_strip_pan_stereo_width_tool(number(1.0)));
    assert_eq!(sent, "/select/pan_stereo_width f1");
    assert_eq!(
        done,
        "Selected strip stereo pan width set to 1.\n (Ensure a strip was selected prior to calling this)"
    );
    assert_eq!(
        error(set_strip_send_gain_db_tool(1, 0, number(0.0))),
        "Invalid rid/send_id: must be positive integers."
    );
    assert_eq!(
        one_message(|| set_strip_send_gain_db_tool(1, 2, number(-6.0))).1,
        "Strip 1 send 2 gain set to -6 dB."
    );
    assert_eq!(
        one_message(|| set_strip_send_fader_tool(1, 2, number(0.25))).0,
        "/strip/send/fader i1 i2 f0.25"
    );
    let (sent, done, _) = one_message(|| set_strip_send_enable_tool(1, 2, true));
    assert_eq!(sent, "/strip/send/enable i1 i2 f1");
    assert_eq!(done, "Strip 1 send 2 enable set to true.");
    assert_eq!(
        error(set_strip_polarity_tool(-1, true)),
        "Invalid rid: must be a positive integer."
    );
    let (sent, done, not_done) = one_message(|| set_strip_polarity_tool(12, true));
    assert_eq!(sent, "/strip/12/polarity i1");
    assert_eq!(done, "Strip 12 polarity invert set to true.");
    assert_eq!(not_done, "OSC send error for /strip/12/polarity: no");
}

#[test]
fn automation_is_written() {
    let mut state = ArdourState::new();
    let (sent, next) = sending(write_plugin_automation_tool(1, 0, 2, 48000, single(0.5)));
    assert_eq!(sent, "/mixpilot/write_plugin_auto i1 i1 i3 i48000 f0.5");
    match document(next.sent(Ok(()), &mut state)) {
        Document::PluginAutomation { route_id, plugin_slot, param_id, time_samples, value } => {
            assert_eq!((route_id, plugin_slot, param_id, time_samples), (1, 0, 2, 48000));
            assert_eq!(value, single(0.5));
        }
        other => panic!("{:?}", other),
    }
    assert_eq!(
        error(write_track_automation_tool(1, "plugin".to_string(), 0, single(0.0), Some(true))),
        "Invalid control_type: plugin. Must be 'gain', 'pan_azimuth', or 'pan_width'"
    );
    let (sent, next) = sending(
        write_track_automation_tool(1, "gain".to_string(), 0x1_0000_0007, single(1.0), None),
    );
    assert_eq!(sent, "/mixpilot/write_track_auto i1 sgain i7 f1");
    assert_eq!(
        error(next.sent(failed("no"), &mut state)),
        "Failed to write track automation: no"
    );
}

#[test]
fn current_value_is_written() {
    let mut state = ArdourState::new();
    let begin = |flag: Option<bool>| {
        write_track_automation_tool(4, "pan_azimuth".to_string(), 480, single(1.0), flag)
    };
    let (sent, next) = sending(begin(Some(true)));
    assert_eq!(sent, "/mixpilot/read_track_auto i4 span_azimuth i480 i9099");
    let (w, ms, next) = waiting(next.sent(Ok(()), &mut state));
    assert_eq!((w, ms), (Waiting::AutoValue, 1500));
    let (sent, next) = sending(next.received(Ok(Reply::AutoValue(single(0.25))), &state));
    assert_eq!(sent, "/mixpilot/write_track_auto i4 span_azimuth i480 f0.25");
    match document(next.sent(Ok(()), &mut state)) {
        Document::TrackAutomation { route_id, control_type, time_samples, value } => {
            assert_eq!((route_id, time_samples, value), (4, 480, single(0.25)));
            assert_eq!(control_type, "pan_azimuth");
        }
        other => panic!("{:?}", other),
    }
    let (_, next) = sending(begin(Some(true)));
    assert_eq!(error(next.sent(failed("no"), &mut state)), "Failed to send read_track_auto: no");
    let (_, next) = sending(begin(Some(true)));
    let (_, _, next) = waiting(next.sent(Ok(()), &mut state));
    assert_eq!(
        error(next.received(Err(WaitError::TimedOut), &state)),
        "Failed to read automation value: Timed out waiting for /mixpilot/reply/auto_value"
    );
    for flag in vec![None, Some(false)] {
        let (sent, _) = sending(begin(flag));
        assert_eq!(sent, "/mixpilot/write_track_auto i4 span_azimuth i480 f1");
    }
}

#[test]
fn automation_is_read() {
    let mut state = ArdourState::new();
    assert_eq!(
        error(read_automation_value_tool(1, "mute".to_string(), None, None, 0)),
        "Invalid control_type: mute. Must be 'plugin', 'gain', 'pan_azimuth', or 'pan_width'"
    );
    assert_eq!(
        error(read_automation_value_tool(1, "plugin".to_string(), Some(0), None, 0)),
        "plugin_slot and param_id are required for 'plugin' control_type"
    );
    let (sent, next) = sending(
        read_automation_value_tool(1, "plugin".to_string(), Some(0), Some(4), 10),
    );
    assert_eq!(sent, "/mixpilot/read_plugin_auto i1 i1 i5 i10 i9099");
    assert_eq!(error(next.sent(failed("no"), &mut state)), "Failed to send read_plugin_auto: no");
    let (sent, next) = sending(
        read_automation_value_tool(1, "pan_width".to_string(), None, None, 10),
    );
    assert_eq!(sent, "/mixpilot/read_track_auto i1 span_width i10 i9099");
    let (w, ms, next) = waiting(next.sent(Ok(()), &mut state));
    assert_eq!((w, ms), (Waiting::AutoValue, 1500));
    match document(next.received(Ok(Reply::AutoValue(single(0.75))), &state)) {
        Document::AutomationValue { value, route_id, control_type, time_samples } => {
            assert_eq!((value, route_id, time_samples), (single(0.75), 1, 10));
            assert_eq!(control_type, "pan_width");
        }
        other => panic!("{:?}", other),
    }
    let (_, next) = sending(read_automation_value_tool(1, "gain".to_string(), None, None, 10));
    let (_, _, next) = waiting(next.sent(Ok(()), &mut state));
    assert_eq!(
        error(next.received(Err(WaitError::TimedOut), &state)),
        "Failed to read automation value: Timed out waiting for /mixpilot/reply/auto_value"
    );
}

#[test]
fn transport_state_is_refreshed_where_unknown() {
    let mut state = ArdourState::new();
    let (sent, next) = sending(get_transport_state_tool(&state));
    assert_eq!(sent, "/transport_frame");
    let (ms, next) = sleeping(next.sent(Ok(()), &mut state));
    assert_eq!(ms, 100);
    hear(&mut state, "/transport_frame", vec![OscArg::Long(960)]);
    hear(&mut state, "/strip/play", vec![OscArg::Int(1)]);
    match document(next.slept(&state)) {
        Document::TransportState { status, position } => {
            assert_eq!(status, "Playing");
            assert_eq!(position, "Unknown");
        }
        other => panic!("{:?}", other),
    }
    match document(get_transport_state_tool(&state)) {
        Document::TransportState { status, position } => {
            assert_eq!(status, "Playing");
            assert_eq!(position, "960");
        }
        other => panic!("{:?}", other),
    }
}

#[test]
fn transport_state_where_nobody_listens() {
    let mut state = ArdourState::new();
    let (_, next) = sending(get_transport_state_tool(&state));
    let text = explain_send_error("Connection refused (os error 111)");
    assert_eq!(
        text,
        "OSC connection to Ardour lost: Connection refused (os error 111). Ardour may have crashed or OSC server stopped."
    );
    assert_eq!(
        error(next.sent(failed(&text), &mut state)),
        "OSC connection to Ardour lost. Ardour may have crashed or OSC server stopped."
    );
    let (_, next) = sending(get_transport_state_tool(&state));
    let text = explain_send_error("no route");
    assert_eq!(text, "Failed to send OSC message: no route");
    match document(next.sent(failed(&text), &mut state)) {
        Document::TransportState { status, .. } => assert_eq!(status, "Unknown"),
        other => panic!("{:?}", other),
    }
}

#[test]
fn sample_rate_and_loop_range() {
    let mut state = ArdourState::new();
    let (sent, next) = sending(get_session_sample_rate_tool());
    assert_eq!(sent, "/mixpilot/get_sample_rate i9099");
    let (w, ms, next) = waiting(next.sent(Ok(()), &mut state));
    assert_eq!((w, ms), (Waiting::SampleRate, 1000));
    assert!(matches!(
        document(next.received(Ok(Reply::SampleRate(96000)), &state)),
        Document::SampleRate(96000)
    ));
    let (_, next) = sending(get_session_sample_rate_tool());
    assert!(matches!(document(next.sent(failed("no"), &mut state)), Document::SampleRate(48000)));
    assert!(matches!(
        document(AfterAwait::SampleRate.received(Err(WaitError::Cancelled), &state)),
        Document::SampleRate(48000)
    ));

    let (sent, next) = sending(get_loop_range_tool());
    assert_eq!(sent, "/mixpilot/get_loop_range i9099");
    let (w, _, next) = waiting(next.sent(Ok(()), &mut state));
    assert_eq!(w, Waiting::LoopRange);
    let range = LoopRange {
        start: 1,
        end: 2,
        start_seconds: single(0.5),
        end_seconds: single(1.5),
    };
    match document(next.received(Ok(Reply::LoopRange(Some(range))), &state)) {
        Document::LoopRange(r) => assert_eq!(r, range),
        other => panic!("{:?}", other),
    }
    assert_eq!(success(AfterAwait::LoopRange.received(Ok(Reply::LoopRange(None)), &state)), "null");
    assert_eq!(success(AfterAwait::LoopRange.received(Err(WaitError::TimedOut), &state)), "null");
}

#[test]
fn strip_list_is_counted() {
    let mut state = ArdourState::new();
    let (sent, next) = sending(request_strip_list_tool());
    assert_eq!(sent, "/strip/list");
    let (ms, next) = sleeping(next.sent(Ok(()), &mut state));
    assert_eq!(ms, 500);
    hear(&mut state, "/strip/name/3", vec![OscArg::Text("Bass".to_string())]);
    hear(&mut state, "/strip/name/1", vec![OscArg::Text("Kick".to_string())]);
    assert_eq!(
        success(next.slept(&state)),
        "Strip list requested from Ardour. Currently have 2 strips in cache."
    );
    let (_, next) = sending(request_strip_list_tool());
    assert_eq!(
        error(next.sent(failed("no"), &mut state)),
        "Failed to send /strip/list request: no"
    );
}

#[test]
fn strip_is_selected() {
    let mut state = ArdourState::new();
    assert_eq!(
        success(select_strip_tool(2, false)),
        "Strip 2 not selected as select_state was false."
    );
    assert_eq!(
        error(select_strip_tool(0, true)),
        "Invalid rid: 0. Must be a positive integer."
    );
    let (sent, next) = sending(select_strip_tool(2, true));
    assert_eq!(sent, "/strip/select i2 i1");
    assert_eq!(error(next.sent(failed("no"), &mut state)), "OSC send error for /strip/select: no");
    assert_eq!(state.selected_strip(), None);
    let (_, next) = sending(select_strip_tool(2, true));
    assert_eq!(success(next.sent(Ok(()), &mut state)), "Strip 2 selected successfully.");
    assert_eq!(state.selected_strip(), Some(2));
    assert_eq!(state.selected_plugin_slot(), None);
}

fn plugin_list(rid: i32, entries: &[(i32, &str, i32)]) -> Vec<OscArg> {
    let mut args = vec![OscArg::Int(rid)];
    for (slot, name, enabled) in entries {
        args.push(OscArg::Int(*slot));
        args.push(OscArg::Text(name.to_string()));
        args.push(OscArg::Int(*enabled));
    }
    args
}

#[test]
fn plugin_is_selected_by_its_place_among_enabled_ones() {
    let mut state = ArdourState::new();
    let (sent, next) = sending(select_plugin_tool(4, 2));
    assert_eq!(sent, "/strip/plugin/list i4");
    let (ms, next) = sleeping(next.sent(Ok(()), &mut state));
    assert_eq!(ms, 150);
    let (ms, next) = sleeping(next.slept(&state));
    assert_eq!(ms, 150);
    hear(&mut state, "/strip/plugin/list", plugin_list(4, &[(1, "Gate", 0), (2, "EQ", 1), (3, "Comp", 1)]));
    let (sent, next) = sending(next.slept(&state));
    assert_eq!(sent, "/strip/select i4 i1");
    let (sent, next) = sending(next.sent(Ok(()), &mut state));
    assert_eq!(sent, "/select/plugin f1");
    assert_eq!(state.selected_strip(), Some(4));
    assert_eq!(state.selected_plugin_slot(), Some(2));
    let (ms, next) = sleeping(next.sent(Ok(()), &mut state));
    assert_eq!(ms, 800);
    assert_eq!(
        success(next.slept(&state)),
        "Plugin on strip 4 slot 2 selected. Parameter feedback should arrive shortly."
    );
}

#[test]
fn disabled_plugin_cannot_be_selected() {
    let mut state = ArdourState::new();
    hear(&mut state, "/strip/plugin/list", plugin_list(4, &[(1, "Gate", 0), (2, "EQ", 1)]));
    assert_eq!(
        error(select_plugin_tool(4, 0)),
        "Invalid plugin_slot: must be a positive integer."
    );
    let (_, next) = sending(select_plugin_tool(4, 1));
    let (sent, next) = sending(next.sent(failed("no"), &mut state));
    assert_eq!(sent, "/strip/select i4 i1");
    assert_eq!(
        error(next.sent(Ok(()), &mut state)),
        "Plugin slot 1 on strip 4 is disabled or not found. Cannot select disabled plugins."
    );
    let (_, next) = sending(select_plugin_tool(4, 7));
    let (_, next) = sending(next.sent(failed("no"), &mut state));
    let (sent, next) = sending(next.sent(Ok(()), &mut state));
    assert_eq!(sent, "/select/plugin f7");
    assert_eq!(
        success(next.sent(failed("no"), &mut state)),
        "Strip 4 selected. Plugin selection command failed, but parameters may still arrive via feedback."
    );
    let (_, next) = sending(select_plugin_tool(4, 2));
    let (_, next) = sending(next.sent(failed("no"), &mut state));
    assert_eq!(
        error(next.sent(failed("off"), &mut state)),
        "Failed to select strip 4: off"
    );
}

#[test]
fn list_is_waited_for_four_times() {
    let mut state = ArdourState::new();
    let (_, next) = sending(select_plugin_tool(9, 1));
    let mut action = next.sent(Ok(()), &mut state);
    for _ in 0..4 {
        let (ms, next) = sleeping(action);
        assert_eq!(ms, 150);
        action = next.slept(&state);
    }
    assert_eq!(sending(action).0, "/strip/select i9 i1");
}

#[test]
fn parameter_is_set() {
    let mut state = ArdourState::new();
    assert_eq!(
        error(set_strip_plugin_parameter_tool(1, 0, 1, number(0.5))),
        "Invalid plugin_slot: must be a positive integer."
    );
    assert_eq!(
        error(set_strip_plugin_parameter_tool(1, 1, 0, number(0.5))),
        "Invalid param_id: must be a positive integer."
    );
    assert_eq!(
        error(set_strip_plugin_parameter_tool(1, 1, 1, number(f32::NAN))),
        "Invalid value: must be between 0.0 and 1.0 (inclusive)."
    );
    let (sent, next) = sending(set_strip_plugin_parameter_tool(1, 2, 5, number(0.25)));
    assert_eq!(sent, "/strip/plugin/parameter i1 i2 i5 f0.25");
    assert_eq!(
        success(next.sent(Ok(()), &mut state)),
        "Strip 1 plugin slot 2 parameter 5 set to 0.25 (via /strip/plugin/parameter)."
    );
}

#[test]
fn parameter_is_set_by_way_of_the_selection() {
    let mut state = ArdourState::new();
    hear(&mut state, "/strip/plugin/list", plugin_list(1, &[(1, "Gate", 0), (2, "EQ", 1)]));
    let (sent, next) = sending(set_strip_plugin_parameter_tool(1, 2, 5, number(0.25)));
    assert_eq!(sent, "/strip/plugin/parameter i1 i2 i5 f0.25");
    let (sent, next) = sending(next.sent(failed("no"), &mut state));
    assert_eq!(sent, "/strip/select i1 i1");
    let (sent, next) = sending(next.sent(Ok(()), &mut state));
    assert_eq!(sent, "/select/plugin f1");
    let (ms, next) = sleeping(next.sent(Ok(()), &mut state));
    assert_eq!(ms, 200);
    let (sent, next) = sending(next.slept(&state));
    assert_eq!(sent, "/select/plugin/parameter i5 f0.25");
    assert_eq!(
        success(next.sent(Ok(()), &mut state)),
        "Strip 1 plugin slot 2 parameter 5 set to 0.25 (via /select/plugin/parameter, visible index 5)."
    );
}

#[test]
fn parameter_cannot_be_set_where_nothing_is_sent() {
    let mut state = ArdourState::new();
    let (_, next) = sending(set_strip_plugin_parameter_tool(1, 2, 5, number(0.25)));
    let (_, next) = sending(next.sent(failed("no"), &mut state));
    assert_eq!(
        error(next.sent(failed("no"), &mut state)),
        "Failed to set parameter: strip selection failed: no"
    );
    let (_, next) = sending(set_strip_plugin_parameter_tool(1, 2, 5, number(0.25)));
    let (_, next) = sending(next.sent(failed("no"), &mut state));
    let (sent, next) = sending(next.sent(Ok(()), &mut state));
    assert_eq!(sent, "/select/plugin f2");
    assert_eq!(
        error(next.sent(failed("no"), &mut state)),
        "Failed to set parameter: /strip/plugin/parameter failed and fallback plugin selection failed: no"
    );
    let (_, next) = sending(set_strip_plugin_parameter_tool(1, 2, 5, number(0.25)));
    let (_, next) = sending(next.sent(failed("no"), &mut state));
    let (_, next) = sending(next.sent(Ok(()), &mut state));
    let (_, next) = sleeping(next.sent(Ok(()), &mut state));
    let (_, next) = sending(next.slept(&state));
    assert_eq!(
        error(next.sent(failed("no"), &mut state)),
        "Failed to set parameter via /select/plugin/parameter: no. Parameter 5 may not be controllable via OSC."
    );
}

fn describe(state: &mut ArdourState, rid: i32, piid: i32, param: i32, label: &str, flags: i32, value: f64) {
    hear(
        state,
        "/strip/plugin/descriptor",
        vec![
            OscArg::Int(rid),
            OscArg::Int(piid),
            OscArg::Int(param),
            OscArg::Text(label.to_string()),
            OscArg::Int(flags),
            OscArg::Text("float".to_string()),
            OscArg::Float(single(0.0)),
            OscArg::Float(single(1.0)),
            OscArg::Text("%f".to_string()),
            OscArg::Double(value.to_bits()),
        ],
    );
}

fn listed(d: Document) -> Vec<(i32, String, f32)> {
    match d {
        Document::PluginParameters { parameters, .. } => parameters
            .iter()
            .map(|p| (p.param_id, p.name.clone(), f32::from_bits(p.value.bits)))
            .collect(),
        other => panic!("{:?}", other),
    }
}

#[test]
fn parameters_are_read_all_at_once() {
    let mut state = ArdourState::new();
    describe(&mut state, 2, 1, 3, "Ratio", 0x80, 0.0);
    describe(&mut state, 2, 1, 1, "Threshold", 0x80, 0.0);
    describe(&mut state, 2, 1, 2, "Hidden", 0, 0.0);
    describe(&mut state, 2, 1, 4, "Meter", 0x200, 0.0);
    let (sent, next) = sending(get_plugin_parameters_tool(2, 1));
    assert_eq!(sent, "/strip/plugin/parameter/get_all i2 i1");
    let (w, ms, next) = waiting(next.sent(Ok(()), &mut state));
    assert_eq!((w, ms), (Waiting::Batch { ssid: 2, slot: 0 }, 1200));
    let values = vec![single(0.5), single(0.25), single(-1.0)];
    assert_eq!(
        listed(document(next.received(Ok(Reply::Batch(values)), &state))),
        vec![
            (1, "Threshold".to_string(), 0.5),
            (3, "Ratio".to_string(), 0.25),
            (4, "Meter".to_string(), -1.0)
        ]
    );
}

#[test]
fn parameters_are_read_as_reported() {
    let mut state = ArdourState::new();
    let (_, next) = sending(get_plugin_parameters_tool(2, 1));
    let (_, _, next) = waiting(next.sent(Ok(()), &mut state));
    let (sent, next) = sending(next.received(Ok(Reply::Batch(vec![single(0.5)])), &state));
    assert_eq!(sent, "/strip/plugin/list i2");
    let (sent, next) = sending(next.sent(failed("no"), &mut state));
    assert_eq!(sent, "/strip/select i2 i1");
    let (_, next) = sending(next.sent(Ok(()), &mut state));
    let (ms, next) = sleeping(next.sent(Ok(()), &mut state));
    assert_eq!(ms, 800);
    let (ms, next) = sleeping(next.slept(&state));
    assert_eq!(ms, 1200);
    hear(&mut state, "/select/plugin/parameter/2", vec![OscArg::Float(single(0.75))]);
    hear(&mut state, "/select/plugin/parameter/1", vec![OscArg::Int(1)]);
    hear(&mut state, "/select/plugin/parameter/name/1", vec![OscArg::Text("Mode".to_string())]);
    assert_eq!(
        listed(document(next.slept(&state))),
        vec![(1, "Mode".to_string(), 1.0), (2, "param_2".to_string(), 0.75)]
    );
    let (_, next) = sending(get_plugin_parameters_tool(2, 1));
    let (ms, next) = sleeping(next.sent(failed("no"), &mut state));
    assert_eq!(ms, 300);
    assert_eq!(listed(document(next.slept(&state))).len(), 2);
}

#[test]
fn plugins_are_listed() {
    let mut state = ArdourState::new();
    assert_eq!(
        error(list_strip_plugins_tool(0)),
        "Invalid rid: 0. Must be a positive integer."
    );
    describe(&mut state, 3, 2, 1, "Gain", 0x80, 1.0);
    describe(&mut state, 3, 2, 2, "Mix", 0x80, 1.0);
    let (sent, next) = sending(list_strip_plugins_tool(3));
    assert_eq!(sent, "/strip/plugin/list i3");
    let mut action = next.sent(failed("no"), &mut state);
    for _ in 0..5 {
        let (ms, next) = sleeping(action);
        assert_eq!(ms, 200);
        action = next.slept(&state);
    }
    match document(action) {
        Document::StripPlugins { strip_id, plugins } => {
            assert_eq!((strip_id, plugins.len()), (3, 1));
            assert_eq!(plugins[0].slot, 1);
            assert_eq!(plugins[0].name, None);
            assert_eq!(plugins[0].known_parameters, 2);
            assert!(plugins[0].has_parameter_names);
        }
        other => panic!("{:?}", other),
    }
    hear(&mut state, "/strip/plugin/list", plugin_list(3, &[(1, "Gate", 0), (2, "Delay", 1)]));
    let (_, next) = sending(list_strip_plugins_tool(3));
    let (_, next) = sleeping(next.sent(Ok(()), &mut state));
    match document(next.slept(&state)) {
        Document::StripPlugins { plugins, .. } => {
            assert_eq!(plugins.len(), 2);
            assert_eq!((plugins[0].slot, plugins[0].enabled), (1, Some(false)));
            assert_eq!(plugins[0].known_parameters, 0);
            assert!(!plugins[0].has_parameter_names);
            assert_eq!((plugins[1].slot, plugins[1].name.clone()), (2, Some("Delay".to_string())));
            assert_eq!(plugins[1].known_parameters, 2);
        }
        other => panic!("{:?}", other),
    }
}

#[test]
fn meters_are_told_by_their_names() {
    assert!(names_meter("EBU R128 Meter (Stereo)"));
    assert!(names_meter("R128"));
    assert!(names_meter(""));
    assert!(!names_meter("Compressor"));
}

#[test]
fn meters_are_read() {
    let mut state = ArdourState::new();
    hear(
        &mut state,
        "/strip/plugin/list",
        plugin_list(
            1,
            &[(1, "EBU R128 Meter", 1), (2, "Comp", 1), (3, "Stereo/Frequency Scope", 0), (4, "True-Peak and RMS Meter", 1)],
        ),
    );
    let (sent, next) = sending(get_meter_readings_tool(1));
    assert_eq!(sent, "/strip/plugin/list i1");
    assert!(matches!(
        next,
        AfterSend::PluginsRequested(ref l) if l.next == AfterListing::ReadMeters
    ));
    let (_, next) = sleeping(next.sent(Ok(()), &mut state));
    let (sent, next) = sending(next.slept(&state));
    assert_eq!(sent, "/strip/plugin/descriptor i1 i1");
    let (w, ms, next) = waiting(next.sent(Ok(()), &mut state));
    assert_eq!((w, ms), (Waiting::Descriptor { ssid: 1, slot: 0 }, 1500));
    describe(&mut state, 1, 1, 1, "Reset", 0x80, 0.0);
    describe(&mut state, 1, 1, 2, "Integrated", 0x200, 0.0);
    describe(&mut state, 1, 1, 3, "Peak", 0x200, 0.0);
    let (sent, next) = sending(next.received(Ok(Reply::Described), &state));
    assert_eq!(sent, "/strip/plugin/parameter/get_all i1 i1");
    let (w, _, next) = waiting(next.sent(Ok(()), &mut state));
    assert_eq!(w, Waiting::Batch { ssid: 1, slot: 0 });
    let values = vec![single(1.0), single(-14.0), single(-1.0)];
    let (sent, next) = sending(next.received(Ok(Reply::Batch(values)), &state));
    assert_eq!(sent, "/strip/plugin/descriptor i1 i4");
    let (_, _, next) = waiting(next.sent(failed("no"), &mut state));
    describe(&mut state, 1, 4, 1, "Peak", 0x200, 0.0);
    describe(&mut state, 1, 4, 2, "RMS", 0x200, 0.0);
    let (sent, next) = sending(next.received(Err(WaitError::TimedOut), &state));
    assert_eq!(sent, "/strip/plugin/parameter/get_all i1 i4");
    let (sent, next) = sending(next.sent(failed("no"), &mut state));
    assert_eq!(sent, "/strip/plugin/parameter/get i1 i4 i1");
    let (w, ms, next) = waiting(next.sent(Ok(()), &mut state));
    assert_eq!((w, ms), (Waiting::Value { ssid: 1, slot: 3, param: 1 }, 800));
    let (sent, next) = sending(next.received(Ok(Reply::Value(single(-0.5))), &state));
    assert_eq!(sent, "/strip/plugin/parameter/get i1 i4 i2");
    let (_, _, next) = waiting(next.sent(Ok(()), &mut state));
    let (sent, next) = sending(next.received(Err(WaitError::TimedOut), &state));
    assert_eq!(sent, "/transport_frame");
    let (ms, next) = sleeping(next.sent(Ok(()), &mut state));
    assert_eq!(ms, 50);
    hear(&mut state, "/transport_frame", vec![OscArg::Long(77)]);
    match document(next.slept(&state)) {
        Document::MeterReadings { strip_id, meters_found, combined_data, transport_frame } => {
            assert_eq!((strip_id, transport_frame), (1, Some(77)));
            assert_eq!(meters_found.len(), 2);
            assert_eq!(meters_found[0].plugin_name, "EBU R128 Meter");
            assert_eq!(meters_found[0].slot, 1);
            assert_eq!(meters_found[0].parameters.len(), 2);
            assert_eq!(meters_found[1].slot, 4);
            assert_eq!(meters_found[1].parameters.len(), 1);
            let data: Vec<(String, f32)> = combined_data
                .iter()
                .map(|r| (r.name.clone(), f32::from_bits(r.value.bits)))
                .collect();
            assert_eq!(
                data,
                vec![("Integrated".to_string(), -14.0), ("Peak".to_string(), -0.5)]
            );
        }
        other => panic!("{:?}", other),
    }
}

#[test]
fn meters_on_a_strip_without_plugins() {
    let mut state = ArdourState::new();
    let (_, next) = sending(get_meter_readings_tool(1));
    let mut action = next.sent(Ok(()), &mut state);
    for _ in 0..5 {
        let (_, next) = sleeping(action);
        action = next.slept(&state);
    }
    let (sent, next) = sending(action);
    assert_eq!(sent, "/transport_frame");
    match document(next.sent(failed("no"), &mut state)) {
        Document::MeterReadings { meters_found, combined_data, transport_frame, .. } => {
            assert!(meters_found.is_empty() && combined_data.is_empty());
            assert_eq!(transport_frame, None);
        }
        other => panic!("{:?}", other),
    }
}

#[test]
fn plugin_uris() {
    assert_eq!(
        get_plugin_uri_from_name("Calf COMPRESSOR"),
        Some("http://calf.sourceforge.net/plugins/Compressor".to_string())
    );
    assert_eq!(
        get_plugin_uri_from_name("Parametric EQ"),
        Some("http://calf.sourceforge.net/plugins/Equalizer8Band".to_string())
    );
    assert_eq!(
        get_plugin_uri_from_name("Limiter"),
        Some("http://calf.sourceforge.net/plugins/Limiter".to_string())
    );
    assert_eq!(
        get_plugin_uri_from_name("REVERB"),
        Some("http://calf.sourceforge.net/plugins/Reverb".to_string())
    );
    assert_eq!(
        get_plugin_uri_from_name("DeEsser"),
        Some("http://calf.sourceforge.net/plugins/Deesser".to_string())
    );
    assert_eq!(get_plugin_uri_from_name("Gate"), None);
    assert_eq!(find_uri("COMPRESSOR"), None);
}

#[test]
fn region_parameters() {
    let mut state = ArdourState::new();
    let nothing = ArdourState::new();
    let begin = |route: &str, name: &str, uri: Option<&str>| {
        set_region_parameter_tool(
            &nothing,
            route.to_string(),
            name.to_string(),
            uri.map(|u| u.to_string()),
            "Ratio".to_string(),
            number(0.5),
            -5_000_000_000,
            48000,
        )
    };
    assert_eq!(
        error(begin("Drums", "Compressor", None)),
        "Route 'Drums' not found. Please use a numeric route ID or the name of a known strip."
    );
    assert_eq!(
        error(begin("3", "Gate", None)),
        "Plugin URI not provided and could not resolve from plugin name 'Gate'. Please provide plugin_uri."
    );
    let (sent, _) = sending(begin("3", "Gate", Some("urn:gate")));
    assert_eq!(sent, "/strip/region/add_plugin i3 i-2147483648 i48000 surn:gate");
    let (sent, next) = sending(begin("3", "Compressor", None));
    assert_eq!(
        sent,
        "/strip/region/add_plugin i3 i-2147483648 i48000 shttp://calf.sourceforge.net/plugins/Compressor"
    );
    let (ms, next) = sleeping(next.sent(failed("no"), &mut state));
    assert_eq!(ms, 100);
    let (sent, next) = sending(next.slept(&state));
    assert_eq!(
        sent,
        "/strip/region/plugin/parameter i3 i-2147483648 i48000 sCompressor sRatio f0.5"
    );
    assert_eq!(
        success(next.sent(Ok(()), &mut state)),
        "Regional parameter set: Compressor on 3 (Ratio=0.5) for range -5000000000-48000 samples"
    );
    let (_, next) = sending(begin("3", "Compressor", None));
    let (_, next) = sleeping(next.sent(Ok(()), &mut state));
    let (_, next) = sending(next.slept(&state));
    assert_eq!(
        error(next.sent(failed("no"), &mut state)),
        "Failed to set Region FX parameter: no. Plugin may need to be added first or parameter name may be incorrect."
    );
}

#[test]
fn routes_are_found_by_name() {
    let mut state = ArdourState::new();
    assert_eq!(find_route(&state, "Drums"), None);
    hear(&mut state, "/strip/name/3", vec![OscArg::Text("Drums".to_string())]);
    hear(&mut state, "/strip/name/5", vec![OscArg::Text("12".to_string())]);
    hear(&mut state, "/strip/name/6", vec![OscArg::Text("Drums".to_string())]);
    assert_eq!(find_route(&state, "Drums"), Some(3));
    assert_eq!(find_route(&state, "drums"), None);
    assert_eq!(find_route(&state, "12"), Some(12));
    assert_eq!(find_route(&state, ""), None);
    let (sent, next) = sending(set_region_parameter_tool(
        &state,
        "Drums".to_string(),
        "Gate".to_string(),
        Some("urn:gate".to_string()),
        "Ratio".to_string(),
        number(0.5),
        0,
        48000,
    ));
    assert_eq!(sent, "/strip/region/add_plugin i3 i0 i48000 surn:gate");
    let (_, next) = sleeping(next.sent(Ok(()), &mut state));
    let (sent, next) = sending(next.slept(&state));
    assert_eq!(sent, "/strip/region/plugin/parameter i3 i0 i48000 sGate sRatio f0.5");
    assert_eq!(
        success(next.sent(Ok(()), &mut state)),
        "Regional parameter set: Gate on Drums (Ratio=0.5) for range 0-48000 samples"
    );
}

#[test]
fn case_of_a_name_does_not_matter() {
    for name in vec!["Calf Compressor", "my EQ", "de-Esser", "DeeSSer", "Gate 2"] {
        let uri = get_plugin_uri_from_name(name);
        assert_eq!(get_plugin_uri_from_name(&name.to_ascii_uppercase()), uri);
        assert_eq!(get_plugin_uri_from_name(&name.to_ascii_lowercase()), uri);
    }
}

#[test]
fn text_around_a_name_keeps_it_recognised() {
    let limiter = Some("http://calf.sourceforge.net/plugins/Limiter".to_string());
    let compressor = Some("http://calf.sourceforge.net/plugins/Compressor".to_string());
    assert_eq!(get_plugin_uri_from_name("LIMITER"), limiter);
    assert_eq!(get_plugin_uri_from_name("my LIMITER 2"), limiter);
    assert_eq!(get_plugin_uri_from_name("LIMITER and reverb"), limiter);
    assert_eq!(get_plugin_uri_from_name("LIMITER behind a Compressor"), compressor);
}

#[test]
fn playback_status_can_be_compared() {
    let state = ArdourState::new();
    assert_eq!(state.playback_status(), PlaybackStatus::Unknown);
    assert_eq!(state.transport_frame(), None);
}
