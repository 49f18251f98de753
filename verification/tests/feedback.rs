use ardour_mcp::feedback::{classify, handle_message, handle_osc_packet, Route};
use ardour_mcp::osc::{message, OscArg, OscMessage, OscPacket};
use ardour_mcp::pending::{wait_error, LoopRange, PendingRequests, Reply, WaitError, Waiting};
use ardour_mcp::plugins::{index_to_select, index_to_set, PluginEntry};
use ardour_mcp::resources::{list_resources, read_resource, ResourceBody};
use ardour_mcp::server::{read_port, set_surface, PortError};
use ardour_mcp::service::ArdourService;
use ardour_mcp::single::Single;
use ardour_mcp::slots::{one_less, one_more};
use ardour_mcp::state::{ArdourState, PlaybackStatus};
use ardour_mcp::table::{ParamKey, ParamTable};
use ardour_mcp::text::{contains, decimal, parse_i32, starts_with, truth, up_to_slash};
use ardour_mcp::TrackInfo;

fn single(v: f32) -> Single {
    Single { bits: v.to_bits() }
}

fn float(v: f32) -> OscArg {
    OscArg::Float(single(v))
}

fn text(t: &str) -> OscArg {
    OscArg::Text(t.to_string())
}

fn key(ssid: i32, slot: i32, param: i32) -> ParamKey {
    ParamKey { ssid, slot, param }
}

fn hear(state: &mut ArdourState, addr: &str, args: Vec<OscArg>) {
    let mut pending = PendingRequests::<u32>::new();
    assert!(handle_message(state, &mut pending, &message(addr, args)).is_none());
}

fn tell(pending: &mut PendingRequests<u32>, addr: &str, args: Vec<OscArg>) -> Option<(u32, Reply)> {
    let mut state = ArdourState::new();
    handle_message(&mut state, pending, &message(addr, args)).map(|d| (d.to, d.reply))
}

fn entries(state: &ArdourState, ssid: i32) -> Option<Vec<(i32, String, bool)>> {
    state
        .plugins_on(ssid)
        .map(|l| l.iter().map(|e| (e.slot, e.name.clone(), e.enabled)).collect())
}

fn entry(slot: i32, name: &str, enabled: bool) -> (i32, String, bool) {
    (slot, name.to_string(), enabled)
}

#[test]
fn addresses_are_told_apart() {
    assert_eq!(classify("/strip/name/12"), Route::StripName(Some(12)));
    assert_eq!(classify("/strip/name/1/2"), Route::StripName(None));
    assert_eq!(classify("/strip/type/x"), Route::StripType(None));
    assert_eq!(classify("/select/plugin/parameter/-4"), Route::Parameter(Some(-4)));
    assert_eq!(classify("/select/plugin/parameter/name/4"), Route::ParameterName(Some(4)));
    assert_eq!(classify("/select/plugin/parameter/names"), Route::PluginSelectedAt(None));
    assert_eq!(classify("/select/plugin/3/more"), Route::PluginSelectedAt(Some(3)));
    assert_eq!(classify("/select/plugin"), Route::PluginSelected);
    assert_eq!(classify("/select/pluginx"), Route::Other);
    assert_eq!(classify("/strip/plugin/parameter/values"), Route::ParameterValues);
    assert_eq!(classify("/strip/meter"), Route::Other);
}

#[test]
fn transport_is_followed() {
    let mut state = ArdourState::new();
    hear(&mut state, "/transport_state", vec![OscArg::Int(2), float(1.0)]);
    assert_eq!(state.playback_status(), PlaybackStatus::Playing);
    hear(&mut state, "/transport_state", vec![OscArg::Int(0)]);
    assert_eq!(state.playback_status(), PlaybackStatus::Playing);
    hear(&mut state, "/transport_state", vec![OscArg::Int(0), OscArg::Int(0)]);
    assert_eq!(state.playback_status(), PlaybackStatus::Playing);
    hear(&mut state, "/transport_state", vec![OscArg::Int(7), float(1.0)]);
    assert_eq!(state.playback_status(), PlaybackStatus::Playing);
    hear(&mut state, "/transport_state", vec![OscArg::Int(0), float(0.0)]);
    assert_eq!(state.playback_status(), PlaybackStatus::Stopped);
    hear(&mut state, "/strip/play", vec![OscArg::Int(1)]);
    assert_eq!(state.playback_status(), PlaybackStatus::Playing);
    hear(&mut state, "/strip/play", vec![OscArg::Int(5)]);
    assert_eq!(state.playback_status(), PlaybackStatus::Playing);
    hear(&mut state, "/transport_frame", vec![OscArg::Int(4)]);
    assert_eq!(state.transport_frame(), None);
    hear(&mut state, "/transport_frame", vec![OscArg::Long(4)]);
    assert_eq!(state.transport_frame(), Some(4));
}

fn strips(state: &ArdourState) -> Vec<(i32, String, String)> {
    state.strips().iter().map(|t| (t.id, t.name.clone(), t.track_type.clone())).collect()
}

fn strip(id: i32, name: &str, kind: &str) -> (i32, String, String) {
    (id, name.to_string(), kind.to_string())
}

#[test]
fn strips_are_collected() {
    let mut state = ArdourState::new();
    hear(&mut state, "/strip/type/2", vec![text("audio")]);
    assert_eq!(strips(&state), vec![]);
    hear(&mut state, "/strip/name/2", vec![text("Drums")]);
    assert_eq!(strips(&state), vec![strip(2, "Drums", "unknown")]);
    hear(&mut state, "/strip/type/1", vec![text("bus")]);
    hear(&mut state, "/strip/type/2", vec![OscArg::Int(3)]);
    assert_eq!(strips(&state), vec![strip(2, "Drums", "type_id_3")]);
    hear(&mut state, "/strip/type/2", vec![float(1.0)]);
    assert_eq!(strips(&state), vec![strip(2, "Drums", "unknown_type_format")]);
    hear(&mut state, "/strip/name/2", vec![text("Kit")]);
    hear(&mut state, "/strip/name/0", vec![text("None")]);
    hear(&mut state, "/strip/name/1", vec![OscArg::Int(1)]);
    assert_eq!(strips(&state), vec![strip(2, "Kit", "unknown_type_format")]);
    hear(
        &mut state,
        "/strip/list",
        vec![
            OscArg::Int(3),
            text("Keys"),
            text("midi"),
            OscArg::Int(-1),
            text("Nothing"),
            text("audio"),
            float(1.9),
            text("Vox"),
            OscArg::Int(4),
            OscArg::Int(9),
            OscArg::Int(9),
            OscArg::Int(9),
        ],
    );
    assert_eq!(strips(&state), vec![strip(1, "Vox", "type_4"), strip(3, "Keys", "midi")]);
    hear(&mut state, "/strip/list", vec![]);
    assert_eq!(strips(&state), vec![]);
}

#[test]
fn plugin_lists_are_merged() {
    let mut state = ArdourState::new();
    hear(
        &mut state,
        "/strip/plugin/list",
        vec![
            OscArg::Int(5),
            OscArg::Int(3),
            text("Delay"),
            OscArg::Int(1),
            OscArg::Int(1),
            text("Gate"),
            float(0.0),
        ],
    );
    assert_eq!(entries(&state, 5), Some(vec![entry(2, "Delay", true), entry(0, "Gate", false)]));
    hear(&mut state, "/strip/plugin/list", vec![OscArg::Int(5)]);
    assert_eq!(entries(&state, 5).map(|l| l.len()), Some(2));
    hear(
        &mut state,
        "/strip/plugin/list",
        vec![
            OscArg::Int(5),
            OscArg::Int(2),
            text("EQ"),
            OscArg::Int(1),
            OscArg::Int(1),
            text("Renamed"),
            OscArg::Int(1),
            text("not a slot"),
            text("x"),
            OscArg::Int(1),
        ],
    );
    assert_eq!(
        entries(&state, 5),
        Some(vec![entry(0, "Gate", true), entry(1, "EQ", true), entry(2, "Delay", true)])
    );
    hear(&mut state, "/strip/plugin/list", vec![OscArg::Int(6)]);
    assert_eq!(entries(&state, 6), Some(vec![]));
    hear(&mut state, "/strip/plugin/list", vec![text("no strip")]);
    hear(&mut state, "/strip/plugin/list", vec![]);
    assert_eq!(entries(&state, 0), None);
}

#[test]
fn inserted_plugins_are_filed() {
    let mut state = ArdourState::new();
    let insert = |slot: i32, name: &str, enabled: i32| {
        vec![OscArg::Int(1), OscArg::Int(slot), text(name), text("urn:x"), OscArg::Int(enabled)]
    };
    hear(&mut state, "/strip/plugin/inserted", insert(2, "B", 1));
    hear(&mut state, "/strip/plugin/inserted", insert(0, "A", 1));
    assert_eq!(entries(&state, 1), Some(vec![entry(0, "A", true), entry(2, "B", true)]));
    hear(&mut state, "/strip/plugin/inserted", insert(2, "C", 0));
    assert_eq!(entries(&state, 1), Some(vec![entry(0, "A", true), entry(2, "C", false)]));
    let mut no_uri = insert(3, "D", 1);
    no_uri[3] = OscArg::Int(0);
    hear(&mut state, "/strip/plugin/inserted", no_uri);
    let mut short = insert(3, "D", 1);
    short.pop();
    hear(&mut state, "/strip/plugin/inserted", short);
    assert_eq!(entries(&state, 1).map(|l| l.len()), Some(2));
}

#[test]
fn plugins_are_numbered_among_enabled_ones() {
    let list = vec![
        PluginEntry { slot: 3, name: "D".to_string(), enabled: true },
        PluginEntry { slot: 0, name: "A".to_string(), enabled: false },
        PluginEntry { slot: 1, name: "B".to_string(), enabled: true },
    ];
    assert_eq!(index_to_select(Some(&list), 2), Some(1));
    assert_eq!(index_to_select(Some(&list), 4), Some(2));
    assert_eq!(index_to_select(Some(&list), 1), None);
    assert_eq!(index_to_select(Some(&list), 9), Some(9));
    assert_eq!(index_to_select(Some(&vec![]), 4), Some(4));
    assert_eq!(index_to_select(None, 4), Some(4));
    assert_eq!(index_to_set(Some(&list), 4), 1);
    assert_eq!(index_to_set(Some(&list), 2), 2);
    assert_eq!(index_to_set(Some(&list), 1), 1);
    assert_eq!(index_to_set(None, 6), 6);
}

#[test]
fn selection_is_followed() {
    let mut state = ArdourState::new();
    hear(&mut state, "/select/plugin/2", vec![]);
    assert_eq!(state.selected_plugin_slot(), None);
    hear(&mut state, "/strip/select", vec![OscArg::Int(0)]);
    hear(&mut state, "/strip/select", vec![float(3.0)]);
    assert_eq!(state.selected_strip(), None);
    hear(&mut state, "/strip/select", vec![OscArg::Int(3)]);
    hear(&mut state, "/select/plugin", vec![float(2.9)]);
    assert_eq!((state.selected_strip(), state.selected_plugin_slot()), (Some(3), Some(2)));
    hear(&mut state, "/select/plugin/4", vec![]);
    assert_eq!(state.selected_plugin_slot(), Some(4));
    hear(&mut state, "/select/plugin/parameter/name", vec![]);
    assert_eq!(state.selected_plugin_slot(), Some(4));
    hear(&mut state, "/strip/select", vec![OscArg::Int(3)]);
    assert_eq!((state.selected_strip(), state.selected_plugin_slot()), (Some(3), None));
}

#[test]
fn selected_parameters_are_noted() {
    let mut state = ArdourState::new();
    hear(&mut state, "/select/plugin/parameter/1", vec![float(0.5)]);
    hear(&mut state, "/strip/select", vec![OscArg::Int(3)]);
    hear(&mut state, "/select/plugin/parameter/1", vec![float(0.5)]);
    assert_eq!(state.valued(), vec![]);
    hear(&mut state, "/select/plugin/2", vec![]);
    hear(&mut state, "/select/plugin/parameter/1", vec![float(0.5)]);
    hear(&mut state, "/select/plugin/parameter/2", vec![OscArg::Int(16777217)]);
    hear(&mut state, "/select/plugin/parameter/3", vec![float(f32::INFINITY)]);
    hear(&mut state, "/select/plugin/parameter/4", vec![text("x")]);
    hear(&mut state, "/select/plugin/parameter/5", vec![]);
    hear(&mut state, "/select/plugin/parameter/x", vec![float(0.5)]);
    assert_eq!(state.valued(), vec![key(3, 2, 1), key(3, 2, 2)]);
    assert_eq!(state.value(key(3, 2, 1)), Some(single(0.5)));
    assert_eq!(state.value(key(3, 2, 2)), Some(single(16777217i32 as f32)));
    hear(&mut state, "/select/plugin/parameter/name/1", vec![text("Gain")]);
    hear(&mut state, "/select/plugin/parameter/name/2", vec![text("")]);
    hear(&mut state, "/select/plugin/parameter/name/3", vec![OscArg::Int(1)]);
    assert_eq!(state.named(), vec![key(3, 2, 1)]);
    assert_eq!(state.name(key(3, 2, 1)), Some("Gain".to_string()));
}

fn descriptor(param: i32, label: OscArg, flags: i32, value: OscArg) -> Vec<OscArg> {
    vec![
        OscArg::Int(1),
        OscArg::Int(2),
        OscArg::Int(param),
        label,
        OscArg::Int(flags),
        text("f"),
        float(0.0),
        float(1.0),
        value,
    ]
}

#[test]
fn inputs_are_numbered() {
    let mut state = ArdourState::new();
    let mut pending = PendingRequests::<u32>::new();
    for (param, flags) in vec![(7, 0x80), (2, 0x280), (4, 0x200), (9, 0x80)] {
        hear(
            &mut state,
            "/strip/plugin/descriptor",
            descriptor(param, text("p"), flags, OscArg::Double(0.1f64.to_bits())),
        );
    }
    hear(&mut state, "/strip/plugin/descriptor", descriptor(5, float(0.0), 0, text("no value")));
    let mut other = descriptor(1, text("q"), 0x80, float(0.5));
    other[1] = OscArg::Int(3);
    hear(&mut state, "/strip/plugin/descriptor", other);
    let mut short = descriptor(6, text("p"), 0x80, float(0.5));
    short.remove(5);
    hear(&mut state, "/strip/plugin/descriptor", short);
    let at = key(1, 1, 2);
    assert_eq!(state.port(at).map(|p| (p.is_input, p.is_output, p.visible_index)), Some((true, true, None)));
    assert_eq!(state.value(at), Some(single(0.1f64 as f32)));
    assert_eq!(state.value(key(1, 1, 5)), None);
    assert_eq!(state.name(key(1, 1, 5)), Some("unknown".to_string()));
    assert_eq!(state.port(key(1, 1, 6)), None);

    assert!(pending.register(Waiting::Descriptor { ssid: 1, slot: 1 }, 8).is_none());
    let end = message("/strip/plugin/descriptor_end", vec![OscArg::Int(1), OscArg::Int(2)]);
    let told = handle_message(&mut state, &mut pending, &end);
    assert!(matches!(told.map(|d| (d.to, d.reply)), Some((8, Reply::Described))));
    let index = |p: i32| state.port(key(1, 1, p)).and_then(|x| x.visible_index);
    assert_eq!(index(2), Some(1));
    assert_eq!(index(7), Some(2));
    assert_eq!(index(9), Some(3));
    assert_eq!(index(4), None);
    assert_eq!(state.port(key(1, 2, 1)).and_then(|x| x.visible_index), None);
}

#[test]
fn values_are_told_once() {
    let mut pending = PendingRequests::<u32>::new();
    let w = Waiting::Value { ssid: 1, slot: 0, param: 3 };
    assert!(pending.register(w, 4).is_none());
    assert_eq!(pending.register(w, 5), Some(4));
    let args = || vec![OscArg::Int(1), OscArg::Int(1), OscArg::Int(3), OscArg::Double(0.5f64.to_bits())];
    let mut other = args();
    other[2] = OscArg::Int(4);
    assert!(tell(&mut pending, "/strip/plugin/parameter/value", other).is_none());
    match tell(&mut pending, "/strip/plugin/parameter/value", args()) {
        Some((5, Reply::Value(v))) => assert_eq!(v, single(0.5)),
        other => panic!("{:?}", other),
    }
    assert!(tell(&mut pending, "/strip/plugin/parameter/value", args()).is_none());
    let mut state = ArdourState::new();
    hear(&mut state, "/strip/plugin/parameter/value", args());
    assert_eq!(state.value(key(1, 0, 3)), Some(single(0.5)));
}

#[test]
fn batches_are_told() {
    let mut pending = PendingRequests::<u32>::new();
    assert!(pending.register(Waiting::Batch { ssid: 1, slot: 0 }, 1).is_none());
    let args = vec![
        float(1.5),
        OscArg::Int(1),
        OscArg::Int(9),
        float(0.25),
        text("skipped"),
        OscArg::Int(2),
        OscArg::Double(1.0e300f64.to_bits()),
    ];
    match tell(&mut pending, "/strip/plugin/parameter/values", args) {
        Some((1, Reply::Batch(v))) => {
            assert_eq!(v, vec![single(0.25), single(2.0), single(f32::INFINITY)])
        }
        other => panic!("{:?}", other),
    }
}

#[test]
fn session_replies_are_told() {
    let mut pending = PendingRequests::<u32>::new();
    assert!(pending.register(Waiting::SampleRate, 1).is_none());
    assert!(tell(&mut pending, "/mixpilot/reply/sample_rate", vec![float(44100.0)]).is_none());
    assert!(matches!(
        tell(&mut pending, "/mixpilot/reply/sample_rate", vec![OscArg::Int(44100)]),
        Some((1, Reply::SampleRate(44100)))
    ));
    assert!(pending.register(Waiting::LoopRange, 2).is_none());
    assert!(matches!(
        tell(&mut pending, "/mixpilot/reply/loop_range", vec![OscArg::Int(0)]),
        Some((2, Reply::LoopRange(None)))
    ));
    assert!(pending.register(Waiting::LoopRange, 3).is_none());
    let range = vec![OscArg::Int(10), OscArg::Int(20), float(0.5), float(1.0)];
    match tell(&mut pending, "/mixpilot/reply/loop_range", range) {
        Some((3, Reply::LoopRange(r))) => assert_eq!(
            r,
            Some(LoopRange {
                start: 10,
                end: 20,
                start_seconds: single(0.5),
                end_seconds: single(1.0)
            })
        ),
        other => panic!("{:?}", other),
    }
    assert!(pending.register(Waiting::AutoValue, 4).is_none());
    assert!(tell(&mut pending, "/mixpilot/reply/auto_value", vec![text("x")]).is_none());
    assert!(matches!(
        tell(&mut pending, "/mixpilot/reply/auto_value", vec![OscArg::Int(1)]),
        Some((4, Reply::AutoValue(v))) if v == single(1.0)
    ));
}

#[test]
fn missing_replies_are_explained() {
    let d = Waiting::Descriptor { ssid: 1, slot: 2 };
    let v = Waiting::Value { ssid: 1, slot: 2, param: 3 };
    let b = Waiting::Batch { ssid: 1, slot: -2 };
    let cases = vec![
        (d, WaitError::TimedOut, "Timed out waiting for /strip/plugin/descriptor_end for strip 1 slot 2"),
        (d, WaitError::Cancelled, "Descriptor wait cancelled for strip 1 slot 2"),
        (v, WaitError::TimedOut, "Timed out waiting for /strip/plugin/parameter/value strip 1 slot 2 param 3"),
        (v, WaitError::Cancelled, "Param wait cancelled strip 1 slot 2 param 3"),
        (b, WaitError::TimedOut, "Timed out waiting for /strip/plugin/parameter/values strip 1 slot -2"),
        (b, WaitError::Cancelled, "Batch param wait cancelled strip 1 slot -2"),
        (Waiting::SampleRate, WaitError::Cancelled, "Sample rate request cancelled"),
        (Waiting::LoopRange, WaitError::Cancelled, "Loop range request cancelled"),
        (Waiting::AutoValue, WaitError::Cancelled, "Auto value request cancelled"),
    ];
    for (w, e, expected) in cases {
        assert_eq!(wait_error(w, e), expected);
    }
}

#[test]
fn bundles_are_handled_in_order() {
    let mut state = ArdourState::new();
    let mut pending = PendingRequests::<u32>::new();
    assert!(pending.register(Waiting::SampleRate, 1).is_none());
    assert!(pending.register(Waiting::AutoValue, 2).is_none());
    let one = |addr: &str, args: Vec<OscArg>| OscPacket::Message(message(addr, args));
    let packet = OscPacket::Bundle(vec![
        one("/strip/play", vec![OscArg::Int(1)]),
        OscPacket::Bundle(vec![
            one("/mixpilot/reply/auto_value", vec![float(0.5)]),
            one("/strip/play", vec![OscArg::Int(0)]),
        ]),
        one("/mixpilot/reply/sample_rate", vec![OscArg::Int(48000)]),
        one("/mixpilot/reply/sample_rate", vec![OscArg::Int(96000)]),
    ]);
    let told: Vec<u32> = handle_osc_packet(&mut state, &mut pending, &packet)
        .iter()
        .map(|d| d.to)
        .collect();
    assert_eq!(told, vec![2, 1]);
    assert_eq!(state.playback_status(), PlaybackStatus::Stopped);
}

fn padded(t: &str) -> Vec<u8> {
    let mut b = t.as_bytes().to_vec();
    b.push(0);
    while b.len() % 4 != 0 {
        b.push(0);
    }
    b
}

#[test]
fn datagrams_are_decoded() {
    let mut frame = padded("/transport_frame");
    frame.extend(padded(",h"));
    frame.extend(1234567890123i64.to_be_bytes().to_vec());
    let mut service = ArdourService::<u32>::new();
    let told = service.receive(&frame);
    assert!(matches!(told, Ok(ref l) if l.is_empty()));
    assert_eq!(service.state().transport_frame(), Some(1234567890123));

    let mut auto = padded("/mixpilot/reply/auto_value");
    auto.extend(padded(",d"));
    auto.extend(0.75f64.to_be_bytes().to_vec());
    let mut name = padded("/strip/name/1");
    name.extend(padded(",sTrf"));
    name.extend(padded("Lead"));
    name.extend(vec![1, 2, 3, 4]);
    name.extend(1.0f32.to_be_bytes().to_vec());
    let mut bundle = padded("#bundle");
    bundle.extend(vec![0, 0, 0, 0, 0, 0, 0, 1]);
    for part in vec![auto, name] {
        bundle.extend((part.len() as u32).to_be_bytes().to_vec());
        bundle.extend(part);
    }
    assert!(service.wait_for(Waiting::AutoValue, 6).is_none());
    match service.receive(&bundle) {
        Ok(list) => {
            assert_eq!(list.len(), 1);
            assert_eq!(list[0].to, 6);
            assert!(matches!(list[0].reply, Reply::AutoValue(v) if v == single(0.75)));
        }
        Err(e) => panic!("{}", e),
    }
    assert_eq!(strips(service.state()), vec![strip(1, "Lead", "unknown")]);
}

#[test]
fn bad_datagrams_change_nothing() {
    let mut service = ArdourService::<u32>::new();
    assert!(service.wait_for(Waiting::SampleRate, 6).is_none());
    match service.receive(b"hello\0\0\0") {
        Err(e) => assert!(e.contains("Invalid message address or bundle tag"), "{}", e),
        Ok(_) => panic!("decoded"),
    }
    assert!(service.receive(&[]).is_err());
    assert_eq!(service.state().playback_status(), PlaybackStatus::Unknown);
    assert_eq!(service.wait_for(Waiting::SampleRate, 7), Some(6));
}

fn plain(body: Result<ResourceBody, String>) -> String {
    match body {
        Ok(ResourceBody::Text(t)) => t,
        other => panic!("{:?}", other),
    }
}

#[test]
fn resources_are_read() {
    let uris: Vec<String> = list_resources().iter().map(|r| r.uri.clone()).collect();
    assert_eq!(
        uris,
        vec!["ardour:/state/playback", "ardour:/state/transport_frame", "ardour:/plugin/parameters"]
    );
    let mut state = ArdourState::new();
    assert_eq!(plain(read_resource(&state, "ardour:/state/playback")), "Unknown");
    assert_eq!(plain(read_resource(&state, "ardour:/state/transport_frame")), "Unknown");
    hear(&mut state, "/strip/play", vec![OscArg::Int(0)]);
    hear(&mut state, "/transport_frame", vec![OscArg::Long(-5)]);
    hear(&mut state, "/strip/name/2", vec![text("Pad")]);
    assert_eq!(plain(read_resource(&state, "ardour:/state/playback")), "Stopped");
    assert_eq!(plain(read_resource(&state, "ardour:/state/transport_frame")), "-5");
    match read_resource(&state, "ardour:/strip/list") {
        Ok(ResourceBody::Strips(list)) => {
            assert_eq!(list.len(), 1);
            assert_eq!(list[0].name, "Pad");
        }
        other => panic!("{:?}", other),
    }
    match read_resource(&state, "ardour:/action/list") {
        Ok(ResourceBody::Actions(list)) => {
            assert_eq!(list.len(), 3);
            assert_eq!(list[1].name, "Editor/zoom-to-session");
        }
        other => panic!("{:?}", other),
    }
    match read_resource(&state, "ardour:/nowhere") {
        Err(t) => assert_eq!(t, "Resource URI 'ardour:/nowhere' not found."),
        other => panic!("{:?}", other),
    }
    assert_eq!(
        read_resource(&state, "ardour:/strip/list").map(|b| b.mime_type()),
        Ok("application/json".to_string())
    );
}

#[test]
fn all_parameters_are_read() {
    let mut state = ArdourState::new();
    for (rid, piid, param, v) in vec![(2, 1, 5, 0.5f32), (1, 3, 1, 0.25), (1, 2, 9, 1.0), (1, 2, 4, 0.0)] {
        hear(
            &mut state,
            "/strip/plugin/parameter/value",
            vec![OscArg::Int(rid), OscArg::Int(piid), OscArg::Int(param), float(v)],
        );
    }
    hear(&mut state, "/strip/select", vec![OscArg::Int(1)]);
    hear(&mut state, "/select/plugin/1", vec![]);
    hear(&mut state, "/select/plugin/parameter/name/9", vec![text("Mix")]);
    match read_resource(&state, "ardour:/plugin/parameters") {
        Ok(ResourceBody::Parameters(strips)) => {
            let mut seen: Vec<(i32, i32, i32, String, f32)> = Vec::new();
            for s in &strips {
                for p in &s.plugins {
                    for x in &p.parameters {
                        let value = f32::from_bits(x.value.bits);
                        seen.push((s.id, p.slot, x.param_id, x.name.clone(), value));
                    }
                }
            }
            assert_eq!(
                seen,
                vec![
                    (1, 1, 4, "param_4".to_string(), 0.0),
                    (1, 1, 9, "Mix".to_string(), 1.0),
                    (1, 2, 1, "param_1".to_string(), 0.25),
                    (2, 0, 5, "param_5".to_string(), 0.5),
                ]
            );
            assert_eq!(strips.len(), 2);
        }
        other => panic!("{:?}", other),
    }
}

#[test]
fn surface_is_set_up() {
    assert_eq!(read_port("127.0.0.1:9099"), Ok(9099));
    assert_eq!(read_port("127.0.0.1"), Err(PortError::NotTwoParts));
    assert_eq!(read_port("a:1:2"), Err(PortError::NotTwoParts));
    assert_eq!(read_port("a:b"), Err(PortError::NotANumber));
    assert_eq!(read_port("a:"), Err(PortError::NotANumber));
    let m: OscMessage = set_surface(9099);
    assert_eq!(m.addr, "/set_surface");
    let args: Vec<i32> = m
        .args
        .iter()
        .map(|a| match a {
            OscArg::Int(i) => *i,
            other => panic!("{:?}", other),
        })
        .collect();
    assert_eq!(args, vec![0, 2047, 131071, 0, 0, 0, 9099, 0, 0]);
}

#[test]
fn numbers_and_text() {
    for n in vec![0i64, 7, -1, 1000, i64::MAX, i64::MIN, 2147483648] {
        assert_eq!(decimal(n), format!("{}", n));
    }
    for t in vec![
        "0", "+5", "-5", "-", "+", "", "2147483647", "2147483648", "-2147483648", "-2147483649",
        " 1", "1 ", "007", "1_0", "\u{661}", "99999999999999999999",
    ] {
        assert_eq!(parse_i32(t), t.parse::<i32>().ok(), "{}", t);
    }
    assert_eq!(truth(true), "true");
    assert!(contains("häuser", "äu") && !contains("abc", "abcd") && contains("abc", ""));
    assert!(starts_with("abc", "ab") && !starts_with("abc", "b"));
    assert_eq!(up_to_slash("12/3"), "12");
    assert_eq!(up_to_slash("12"), "12");
    assert_eq!((one_less(i32::MIN), one_more(i32::MAX)), (i32::MAX, i32::MIN));
    assert_eq!((one_less(1), one_more(0)), (0, 1));
}

#[test]
fn floating_point_on_bits() {
    for i in vec![0i32, 1, -1, 8, -400, 16777215, 16777216, 16777217, 33554435, i32::MAX, i32::MIN] {
        assert_eq!(Single::from_int(i).bits, (i as f32).to_bits());
    }
    for d in vec![
        0.0f64, -0.0, 0.1, -0.1, 1.0, 1.0e-45, 7.0e-46, 8.0e-46, 1.0e-50, 1.1754943e-38, 3.4028235e38,
        3.4028236e38, 1.0e39, f64::INFINITY, f64::NEG_INFINITY, 16777217.0, f64::MIN_POSITIVE,
        0.30000001192092893, 1.0000000596046448,
    ] {
        assert_eq!(Single::from_double(d.to_bits()).bits, (d as f32).to_bits(), "{}", d);
    }
    assert!(Single::from_double(f64::NAN.to_bits()).is_nan());
    for f in vec![
        0.0f32, -0.0, 0.9, -0.9, 1.0, -1.5, 1.0e9, 2147483648.0, -2147483648.0, 3.0e9, -3.0e9,
        f32::INFINITY, f32::NEG_INFINITY, f32::NAN, 1.0e-40, 123456.789,
    ] {
        assert_eq!(single(f).to_i32(), f as i32, "{}", f);
        for g in vec![0.0f32, -0.0, 1.0, -1.5, f32::NAN, f32::INFINITY, 1.0e-40] {
            assert_eq!(single(f).less(&single(g)), f < g);
        }
        assert_eq!(single(f).is_finite(), f.is_finite());
        assert_eq!(single(f).is_zero(), f == 0.0);
        assert_eq!(single(f).is_below(1), f < 1.0);
        assert_eq!(single(f).is_above(-1), f > -1.0);
    }
}

#[test]
fn tables_keep_one_value_for_each_key() {
    let mut t: ParamTable<i32> = ParamTable::new();
    for (k, v) in vec![(key(2, 0, 0), 1), (key(1, 5, 5), 2), (key(1, 5, 4), 3), (key(2, 0, 0), 4)] {
        t.insert(k, v);
    }
    assert_eq!(t.keys(), vec![key(1, 5, 4), key(1, 5, 5), key(2, 0, 0)]);
    assert_eq!(t.get(key(2, 0, 0)), Some(&4));
    assert_eq!(t.get(key(1, 5, 5)), Some(&2));
    assert_eq!(t.get(key(9, 9, 9)), None);
}

#[test]
fn tracks_can_be_cloned() {
    let t = TrackInfo { id: 1, name: "A".to_string(), track_type: "audio".to_string() };
    let c = t.clone();
    assert_eq!((c.id, c.name, c.track_type), (t.id, t.name, t.track_type));
}
