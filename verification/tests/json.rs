use ardour_mcp::json::{document_json, resource_json, Json};
use ardour_mcp::pending::LoopRange;
use ardour_mcp::reply::{Document, ListedPlugin, Meter, NamedReading};
use ardour_mcp::resources::{ActionInfo, ResourceBody, SlotParameters, StripParameters};
use ardour_mcp::single::Single;
use ardour_mcp::{PluginInfo, PluginParameter, TrackInfo};
use std::collections::HashMap;

fn single(v: f32) -> Single {
    Single { bits: v.to_bits() }
}

fn parameter(param_id: i32, name: &str, value: f32) -> PluginParameter {
    PluginParameter { param_id, name: name.to_string(), value: single(value) }
}

fn show(j: &Json) -> String {
    match j {
        Json::Null => "null".to_string(),
        Json::Bool(b) => b.to_string(),
        Json::Int(n) => n.to_string(),
        Json::Count(n) => n.to_string(),
        Json::Number(v) => format!("{:?}", f32::from_bits(v.bits)),
        Json::Text(t) => format!("{:?}", t),
        Json::List(list) => {
            let items: Vec<String> = list.iter().map(show).collect();
            format!("[{}]", items.join(","))
        }
        Json::Object(fields) => {
            let items: Vec<String> =
                fields.iter().map(|f| format!("{:?}:{}", f.0, show(&f.1))).collect();
            format!("{{{}}}", items.join(","))
        }
    }
}

fn shown(d: Document) -> String {
    show(&document_json(&d))
}

#[test]
fn plain_documents_as_json() {
    assert_eq!(
        shown(Document::TransportState {
            status: "Playing".to_string(),
            position: "Unknown".to_string(),
        }),
        r#"{"status":"Playing","transport_frame":"Unknown"}"#
    );
    assert_eq!(shown(Document::SampleRate(44100)), r#"{"sample_rate":44100}"#);
    assert_eq!(
        shown(Document::LoopRange(LoopRange {
            start: 10,
            end: -1,
            start_seconds: single(0.5),
            end_seconds: single(f32::INFINITY),
        })),
        r#"{"loop_start_samples":10,"loop_end_samples":-1,"loop_start_seconds":0.5,"loop_end_seconds":null}"#
    );
    assert_eq!(
        shown(Document::PluginAutomation {
            route_id: 1,
            plugin_slot: 0,
            param_id: 2,
            time_samples: 5_000_000_000,
            value: single(1.0),
        }),
        r#"{"success":true,"route_id":1,"plugin_slot":0,"param_id":2,"time_samples":5000000000,"value":1.0}"#
    );
    assert_eq!(
        shown(Document::AutomationValue {
            value: single(0.25),
            route_id: 1,
            control_type: "gain".to_string(),
            time_samples: 7,
        }),
        r#"{"success":true,"value":0.25,"route_id":1,"control_type":"gain","time_samples":7}"#
    );
    assert_eq!(
        shown(Document::TrackAutomation {
            route_id: 1,
            control_type: "gain".to_string(),
            time_samples: 7,
            value: single(0.25),
        }),
        r#"{"success":true,"route_id":1,"control_type":"gain","time_samples":7,"value":0.25}"#
    );
}

#[test]
fn plugins_as_json() {
    assert_eq!(
        shown(Document::PluginParameters {
            strip_id: 3,
            plugin_slot: 1,
            parameters: vec![parameter(1, "Ratio", 0.5), parameter(2, "Knee", f32::NAN)],
        }),
        r#"{"strip_id":3,"plugin_slot":1,"parameter_count":2,"parameters":[{"id":1,"name":"Ratio","value":0.5},{"id":2,"name":"Knee","value":null}]}"#
    );
    let known = ListedPlugin {
        slot: 1,
        name: Some("Gate".to_string()),
        enabled: Some(false),
        known_parameters: 2,
        has_parameter_names: true,
    };
    let heard_of = ListedPlugin {
        slot: 4,
        name: None,
        enabled: None,
        known_parameters: 1,
        has_parameter_names: false,
    };
    assert_eq!(
        shown(Document::StripPlugins { strip_id: 3, plugins: vec![known, heard_of] }),
        r#"{"strip_id":3,"plugin_count":2,"plugins":[{"slot":1,"name":"Gate","enabled":false,"known_parameters":2,"has_parameter_names":true},{"slot":4,"known_parameters":1,"has_parameter_names":false}]}"#
    );
}

#[test]
fn meters_as_json() {
    let meter = Meter {
        plugin_name: "EBU R128 Meter".to_string(),
        slot: 2,
        enabled: true,
        parameters: vec![parameter(7, "LUFS", -23.0)],
    };
    let reading = NamedReading { name: "LUFS".to_string(), value: single(-23.0) };
    assert_eq!(
        shown(Document::MeterReadings {
            strip_id: 3,
            meters_found: vec![meter],
            combined_data: vec![reading],
            transport_frame: Some(960),
        }),
        r#"{"strip_id":3,"meters_found":[{"plugin_name":"EBU R128 Meter","slot":2,"enabled":true,"parameters":[{"id":7,"name":"LUFS","value":-23.0}]}],"combined_data":{"LUFS":-23.0},"transport_frame":960}"#
    );
    assert_eq!(
        shown(Document::MeterReadings {
            strip_id: 3,
            meters_found: vec![],
            combined_data: vec![],
            transport_frame: None,
        }),
        r#"{"strip_id":3,"meters_found":[],"combined_data":{},"transport_frame":null}"#
    );
}

#[test]
fn resources_as_json() {
    assert_eq!(
        show(&resource_json(&ResourceBody::Text("Stopped".to_string()))),
        r#""Stopped""#
    );
    let track = TrackInfo { id: 1, name: "Kick".to_string(), track_type: "audio".to_string() };
    assert_eq!(
        show(&resource_json(&ResourceBody::Strips(vec![track]))),
        r#"[{"id":1,"name":"Kick","track_type":"audio"}]"#
    );
    let action = ActionInfo { name: "a".to_string(), description: "b".to_string() };
    assert_eq!(
        show(&resource_json(&ResourceBody::Actions(vec![action]))),
        r#"[{"name":"a","description":"b"}]"#
    );
    let slot = SlotParameters { slot: 0, parameters: vec![parameter(-2, "Ratio", 0.5)] };
    let strip = StripParameters { id: 12, plugins: vec![slot] };
    assert_eq!(
        show(&resource_json(&ResourceBody::Parameters(vec![strip]))),
        r#"{"strips":{"12":{"id":12,"plugins":{"0":{"slot":0,"parameters":{"param_-2":{"id":-2,"name":"Ratio","value":0.5}}}}}}}"#
    );
}

#[test]
fn copies_of_plugins_keep_their_parameters() {
    let mut parameters = HashMap::new();
    parameters.insert(0, parameter(0, "Ratio", 0.5));
    let plugin = PluginInfo { slot: 2, name: "Gate".to_string(), parameters };
    let copy = plugin.clone();
    assert_eq!((copy.slot, copy.name.as_str()), (2, "Gate"));
    assert_eq!(copy.parameters.len(), 1);
    assert_eq!(copy.parameters[&0].name, "Ratio");
    assert_eq!(copy.parameters[&0].value, single(0.5));
}
