//! What a tool replies.

use crate::pending::LoopRange;
use crate::single::Single;
use crate::state::{parameters_view, ParameterView, PluginParameter};
use vstd::prelude::*;
use vstd::string::*;

verus! {

/// A plugin as it is listed for a strip. Where only parameters were heard of, neither
/// its name nor its state is known.
#[derive(Debug)]
pub struct ListedPlugin {
    pub slot: i32,
    pub name: Option<String>,
    pub enabled: Option<bool>,
    pub known_parameters: usize,
    pub has_parameter_names: bool,
}

/// What is said of a listed plugin.
pub struct ListedPluginView {
    pub slot: i32,
    pub name: Option<Seq<char>>,
    pub enabled: Option<bool>,
    pub known_parameters: nat,
    pub has_parameter_names: bool,
}

impl View for ListedPlugin {
    type V = ListedPluginView;

    open spec fn view(&self) -> ListedPluginView {
        ListedPluginView {
            slot: self.slot,
            name: match self.name {
                Some(n) => Some(n@),
                None => None,
            },
            enabled: self.enabled,
            known_parameters: self.known_parameters as nat,
            has_parameter_names: self.has_parameter_names,
        }
    }
}

/// A meter plugin with its readings. The slot is counted from one.
#[derive(Debug)]
pub struct Meter {
    pub plugin_name: String,
    pub slot: i32,
    pub enabled: bool,
    pub parameters: Vec<PluginParameter>,
}

/// What is said of a meter.
#[verifier::ext_equal]
pub struct MeterView {
    pub plugin_name: Seq<char>,
    pub slot: i32,
    pub enabled: bool,
    pub parameters: Seq<ParameterView>,
}

impl View for Meter {
    type V = MeterView;

    open spec fn view(&self) -> MeterView {
        MeterView {
            plugin_name: self.plugin_name@,
            slot: self.slot,
            enabled: self.enabled,
            parameters: parameters_view(self.parameters@),
        }
    }
}

/// A reading under its name.
#[derive(Debug)]
pub struct NamedReading {
    pub name: String,
    pub value: Single,
}

/// The readings of a list, by name.
pub open spec fn readings_view(list: Seq<NamedReading>) -> Seq<(Seq<char>, Single)> {
    list.map_values(|r: NamedReading| (r.name@, r.value))
}

/// What the meters of a list say.
pub open spec fn meters_view(list: Seq<Meter>) -> Seq<MeterView> {
    list.map_values(|m: Meter| m@)
}

/// What is said of the plugins of a list.
pub open spec fn listed_plugins_view(list: Seq<ListedPlugin>) -> Seq<ListedPluginView> {
    list.map_values(|p: ListedPlugin| p@)
}

/// A reply with several fields.
#[derive(Debug)]
pub enum Document {
    TransportState { status: String, position: String },
    PluginParameters { strip_id: i32, plugin_slot: i32, parameters: Vec<PluginParameter> },
    MeterReadings {
        strip_id: i32,
        meters_found: Vec<Meter>,
        combined_data: Vec<NamedReading>,
        transport_frame: Option<i64>,
    },
    SampleRate(i32),
    LoopRange(LoopRange),
    PluginAutomation {
        route_id: i32,
        plugin_slot: i32,
        param_id: i32,
        time_samples: i64,
        value: Single,
    },
    AutomationValue { value: Single, route_id: i32, control_type: String, time_samples: i64 },
    TrackAutomation { route_id: i32, control_type: String, time_samples: i64, value: Single },
    StripPlugins { strip_id: i32, plugins: Vec<ListedPlugin> },
}

/// What a reply with several fields says.
pub enum DocumentView {
    TransportState { status: Seq<char>, position: Seq<char> },
    PluginParameters { strip_id: i32, plugin_slot: i32, parameters: Seq<ParameterView> },
    MeterReadings {
        strip_id: i32,
        meters_found: Seq<MeterView>,
        combined_data: Seq<(Seq<char>, Single)>,
        transport_frame: Option<i64>,
    },
    SampleRate(i32),
    LoopRange(LoopRange),
    PluginAutomation {
        route_id: i32,
        plugin_slot: i32,
        param_id: i32,
        time_samples: i64,
        value: Single,
    },
    AutomationValue { value: Single, route_id: i32, control_type: Seq<char>, time_samples: i64 },
    TrackAutomation { route_id: i32, control_type: Seq<char>, time_samples: i64, value: Single },
    StripPlugins { strip_id: i32, plugins: Seq<ListedPluginView> },
}

impl View for Document {
    type V = DocumentView;

    open spec fn view(&self) -> DocumentView {
        match self {
            Document::TransportState { status, position } => DocumentView::TransportState {
                status: status@,
                position: position@,
            },
            Document::PluginParameters {
                strip_id,
                plugin_slot,
                parameters,
            } => DocumentView::PluginParameters {
                strip_id: *strip_id,
                plugin_slot: *plugin_slot,
                parameters: parameters_view(parameters@),
            },
            Document::MeterReadings {
                strip_id,
                meters_found,
                combined_data,
                transport_frame,
            } => DocumentView::MeterReadings {
                strip_id: *strip_id,
                meters_found: meters_view(meters_found@),
                combined_data: readings_view(combined_data@),
                transport_frame: *transport_frame,
            },
            Document::SampleRate(rate) => DocumentView::SampleRate(*rate),
            Document::LoopRange(range) => DocumentView::LoopRange(*range),
            Document::PluginAutomation {
                route_id,
                plugin_slot,
                param_id,
                time_samples,
                value,
            } => DocumentView::PluginAutomation {
                route_id: *route_id,
                plugin_slot: *plugin_slot,
                param_id: *param_id,
                time_samples: *time_samples,
                value: *value,
            },
            Document::AutomationValue {
                value,
                route_id,
                control_type,
                time_samples,
            } => DocumentView::AutomationValue {
                value: *value,
                route_id: *route_id,
                control_type: control_type@,
                time_samples: *time_samples,
            },
            Document::TrackAutomation {
                route_id,
                control_type,
                time_samples,
                value,
            } => DocumentView::TrackAutomation {
                route_id: *route_id,
                control_type: control_type@,
                time_samples: *time_samples,
                value: *value,
            },
            Document::StripPlugins { strip_id, plugins } => DocumentView::StripPlugins {
                strip_id: *strip_id,
                plugins: listed_plugins_view(plugins@),
            },
        }
    }
}

/// What a tool replies.
#[derive(Debug)]
pub enum ToolReply {
    /// The tool did its work.
    Success(String),
    /// The tool did its work and replies with several fields.
    Document(Document),
    /// The tool ran and reports an error.
    Error(String),
    /// The call itself fails: the arguments are not acceptable.
    InvalidParams(String),
    /// The call itself fails: the workstation could not be reached.
    InternalError(String),
}

/// What a reply says.
pub enum ToolReplyView {
    Success(Seq<char>),
    Document(DocumentView),
    Error(Seq<char>),
    InvalidParams(Seq<char>),
    InternalError(Seq<char>),
}

impl View for ToolReply {
    type V = ToolReplyView;

    open spec fn view(&self) -> ToolReplyView {
        match self {
            ToolReply::Success(t) => ToolReplyView::Success(t@),
            ToolReply::Document(d) => ToolReplyView::Document(d@),
            ToolReply::Error(t) => ToolReplyView::Error(t@),
            ToolReply::InvalidParams(t) => ToolReplyView::InvalidParams(t@),
            ToolReply::InternalError(t) => ToolReplyView::InternalError(t@),
        }
    }
}

} // verus!
