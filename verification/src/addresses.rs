//! The addresses of the reports and replies of the workstation.

use crate::feedback::{route, Route};
use crate::laws::lemma_other_start;
use vstd::prelude::*;
use vstd::string::*;

verus! {

/// What `/transport_state` is about.
proof fn lemma_route_transport_state()
    ensures
        route("/transport_state"@) == Route::TransportState,
{
    let addr = "/transport_state"@;
    reveal_strlit("/transport_state");
    reveal_strlit("/strip/name/");
    assert(addr[1] == 't');
    assert("/strip/name/"@[1] == 's');
    lemma_other_start(addr, "/strip/name/"@, 1);
    reveal_strlit("/strip/type/");
    assert(addr[1] == 't');
    assert("/strip/type/"@[1] == 's');
    lemma_other_start(addr, "/strip/type/"@, 1);
}

/// What `/transport_frame` is about.
proof fn lemma_route_transport_frame()
    ensures
        route("/transport_frame"@) == Route::TransportFrame,
{
    let addr = "/transport_frame"@;
    reveal_strlit("/transport_frame");
    reveal_strlit("/strip/name/");
    assert(addr[1] == 't');
    assert("/strip/name/"@[1] == 's');
    lemma_other_start(addr, "/strip/name/"@, 1);
    reveal_strlit("/strip/type/");
    assert(addr[1] == 't');
    assert("/strip/type/"@[1] == 's');
    lemma_other_start(addr, "/strip/type/"@, 1);
    reveal_strlit("/transport_state");
    assert(addr[11] == 'f');
    assert("/transport_state"@[11] == 's');
}

/// What `/strip/play` is about.
proof fn lemma_route_strip_play()
    ensures
        route("/strip/play"@) == Route::StripPlay,
{
    let addr = "/strip/play"@;
    reveal_strlit("/strip/play");
    reveal_strlit("/strip/name/");
    assert(addr[7] == 'p');
    assert("/strip/name/"@[7] == 'n');
    lemma_other_start(addr, "/strip/name/"@, 7);
    reveal_strlit("/strip/type/");
    assert(addr[7] == 'p');
    assert("/strip/type/"@[7] == 't');
    lemma_other_start(addr, "/strip/type/"@, 7);
    reveal_strlit("/transport_state");
    assert(addr.len() != "/transport_state"@.len());
    reveal_strlit("/transport_frame");
    assert(addr.len() != "/transport_frame"@.len());
}

/// What `/select/plugin` is about.
proof fn lemma_route_plugin_selected()
    ensures
        route("/select/plugin"@) == Route::PluginSelected,
{
    let addr = "/select/plugin"@;
    reveal_strlit("/select/plugin");
    reveal_strlit("/strip/name/");
    assert(addr[2] == 'e');
    assert("/strip/name/"@[2] == 't');
    lemma_other_start(addr, "/strip/name/"@, 2);
    reveal_strlit("/strip/type/");
    assert(addr[2] == 'e');
    assert("/strip/type/"@[2] == 't');
    lemma_other_start(addr, "/strip/type/"@, 2);
    reveal_strlit("/transport_state");
    assert(addr.len() != "/transport_state"@.len());
    reveal_strlit("/transport_frame");
    assert(addr.len() != "/transport_frame"@.len());
    reveal_strlit("/strip/play");
    assert(addr.len() != "/strip/play"@.len());
    reveal_strlit("/select/plugin/parameter/");
    lemma_other_start(addr, "/select/plugin/parameter/"@, 14);
    reveal_strlit("/select/plugin/parameter/name/");
    lemma_other_start(addr, "/select/plugin/parameter/name/"@, 14);
}

/// What `/strip/plugin/list` is about.
proof fn lemma_route_plugin_list()
    ensures
        route("/strip/plugin/list"@) == Route::PluginList,
{
    let addr = "/strip/plugin/list"@;
    reveal_strlit("/strip/plugin/list");
    reveal_strlit("/strip/name/");
    assert(addr[7] == 'p');
    assert("/strip/name/"@[7] == 'n');
    lemma_other_start(addr, "/strip/name/"@, 7);
    reveal_strlit("/strip/type/");
    assert(addr[7] == 'p');
    assert("/strip/type/"@[7] == 't');
    lemma_other_start(addr, "/strip/type/"@, 7);
    reveal_strlit("/transport_state");
    assert(addr.len() != "/transport_state"@.len());
    reveal_strlit("/transport_frame");
    assert(addr.len() != "/transport_frame"@.len());
    reveal_strlit("/strip/play");
    assert(addr.len() != "/strip/play"@.len());
    reveal_strlit("/select/plugin/parameter/");
    assert(addr[2] == 't');
    assert("/select/plugin/parameter/"@[2] == 'e');
    lemma_other_start(addr, "/select/plugin/parameter/"@, 2);
    reveal_strlit("/select/plugin/parameter/name/");
    assert(addr[2] == 't');
    assert("/select/plugin/parameter/name/"@[2] == 'e');
    lemma_other_start(addr, "/select/plugin/parameter/name/"@, 2);
    reveal_strlit("/select/plugin");
    assert(addr.len() != "/select/plugin"@.len());
    reveal_strlit("/select/plugin/");
    assert(addr[2] == 't');
    assert("/select/plugin/"@[2] == 'e');
    lemma_other_start(addr, "/select/plugin/"@, 2);
}

/// What `/strip/plugin/inserted` is about.
proof fn lemma_route_plugin_inserted()
    ensures
        route("/strip/plugin/inserted"@) == Route::PluginInserted,
{
    let addr = "/strip/plugin/inserted"@;
    reveal_strlit("/strip/plugin/inserted");
    reveal_strlit("/strip/name/");
    assert(addr[7] == 'p');
    assert("/strip/name/"@[7] == 'n');
    lemma_other_start(addr, "/strip/name/"@, 7);
    reveal_strlit("/strip/type/");
    assert(addr[7] == 'p');
    assert("/strip/type/"@[7] == 't');
    lemma_other_start(addr, "/strip/type/"@, 7);
    reveal_strlit("/transport_state");
    assert(addr.len() != "/transport_state"@.len());
    reveal_strlit("/transport_frame");
    assert(addr.len() != "/transport_frame"@.len());
    reveal_strlit("/strip/play");
    assert(addr.len() != "/strip/play"@.len());
    reveal_strlit("/select/plugin/parameter/");
    assert(addr[2] == 't');
    assert("/select/plugin/parameter/"@[2] == 'e');
    lemma_other_start(addr, "/select/plugin/parameter/"@, 2);
    reveal_strlit("/select/plugin/parameter/name/");
    assert(addr[2] == 't');
    assert("/select/plugin/parameter/name/"@[2] == 'e');
    lemma_other_start(addr, "/select/plugin/parameter/name/"@, 2);
    reveal_strlit("/select/plugin");
    assert(addr.len() != "/select/plugin"@.len());
    reveal_strlit("/select/plugin/");
    assert(addr[2] == 't');
    assert("/select/plugin/"@[2] == 'e');
    lemma_other_start(addr, "/select/plugin/"@, 2);
    reveal_strlit("/strip/plugin/list");
    assert(addr.len() != "/strip/plugin/list"@.len());
}

/// What `/strip/plugin/descriptor` is about.
proof fn lemma_route_descriptor()
    ensures
        route("/strip/plugin/descriptor"@) == Route::Descriptor,
{
    let addr = "/strip/plugin/descriptor"@;
    reveal_strlit("/strip/plugin/descriptor");
    reveal_strlit("/strip/name/");
    assert(addr[7] == 'p');
    assert("/strip/name/"@[7] == 'n');
    lemma_other_start(addr, "/strip/name/"@, 7);
    reveal_strlit("/strip/type/");
    assert(addr[7] == 'p');
    assert("/strip/type/"@[7] == 't');
    lemma_other_start(addr, "/strip/type/"@, 7);
    reveal_strlit("/transport_state");
    assert(addr.len() != "/transport_state"@.len());
    reveal_strlit("/transport_frame");
    assert(addr.len() != "/transport_frame"@.len());
    reveal_strlit("/strip/play");
    assert(addr.len() != "/strip/play"@.len());
    reveal_strlit("/select/plugin/parameter/");
    assert(addr[2] == 't');
    assert("/select/plugin/parameter/"@[2] == 'e');
    lemma_other_start(addr, "/select/plugin/parameter/"@, 2);
    reveal_strlit("/select/plugin/parameter/name/");
    assert(addr[2] == 't');
    assert("/select/plugin/parameter/name/"@[2] == 'e');
    lemma_other_start(addr, "/select/plugin/parameter/name/"@, 2);
    reveal_strlit("/select/plugin");
    assert(addr.len() != "/select/plugin"@.len());
    reveal_strlit("/select/plugin/");
    assert(addr[2] == 't');
    assert("/select/plugin/"@[2] == 'e');
    lemma_other_start(addr, "/select/plugin/"@, 2);
    reveal_strlit("/strip/plugin/list");
    assert(addr.len() != "/strip/plugin/list"@.len());
    reveal_strlit("/strip/plugin/inserted");
    assert(addr.len() != "/strip/plugin/inserted"@.len());
}

/// What `/strip/plugin/descriptor_end` is about.
proof fn lemma_route_descriptor_end()
    ensures
        route("/strip/plugin/descriptor_end"@) == Route::DescriptorEnd,
{
    let addr = "/strip/plugin/descriptor_end"@;
    reveal_strlit("/strip/plugin/descriptor_end");
    reveal_strlit("/strip/name/");
    assert(addr[7] == 'p');
    assert("/strip/name/"@[7] == 'n');
    lemma_other_start(addr, "/strip/name/"@, 7);
    reveal_strlit("/strip/type/");
    assert(addr[7] == 'p');
    assert("/strip/type/"@[7] == 't');
    lemma_other_start(addr, "/strip/type/"@, 7);
    reveal_strlit("/transport_state");
    assert(addr.len() != "/transport_state"@.len());
    reveal_strlit("/transport_frame");
    assert(addr.len() != "/transport_frame"@.len());
    reveal_strlit("/strip/play");
    assert(addr.len() != "/strip/play"@.len());
    reveal_strlit("/select/plugin/parameter/");
    assert(addr[2] == 't');
    assert("/select/plugin/parameter/"@[2] == 'e');
    lemma_other_start(addr, "/select/plugin/parameter/"@, 2);
    reveal_strlit("/select/plugin/parameter/name/");
    assert(addr[2] == 't');
    assert("/select/plugin/parameter/name/"@[2] == 'e');
    lemma_other_start(addr, "/select/plugin/parameter/name/"@, 2);
    reveal_strlit("/select/plugin");
    assert(addr.len() != "/select/plugin"@.len());
    reveal_strlit("/select/plugin/");
    assert(addr[2] == 't');
    assert("/select/plugin/"@[2] == 'e');
    lemma_other_start(addr, "/select/plugin/"@, 2);
    reveal_strlit("/strip/plugin/list");
    assert(addr.len() != "/strip/plugin/list"@.len());
    reveal_strlit("/strip/plugin/inserted");
    assert(addr.len() != "/strip/plugin/inserted"@.len());
    reveal_strlit("/strip/plugin/descriptor");
    assert(addr.len() != "/strip/plugin/descriptor"@.len());
}

/// What `/strip/plugin/parameter/value` is about.
proof fn lemma_route_parameter_value()
    ensures
        route("/strip/plugin/parameter/value"@) == Route::ParameterValue,
{
    let addr = "/strip/plugin/parameter/value"@;
    reveal_strlit("/strip/plugin/parameter/value");
    reveal_strlit("/strip/name/");
    assert(addr[7] == 'p');
    assert("/strip/name/"@[7] == 'n');
    lemma_other_start(addr, "/strip/name/"@, 7);
    reveal_strlit("/strip/type/");
    assert(addr[7] == 'p');
    assert("/strip/type/"@[7] == 't');
    lemma_other_start(addr, "/strip/type/"@, 7);
    reveal_strlit("/transport_state");
    assert(addr.len() != "/transport_state"@.len());
    reveal_strlit("/transport_frame");
    assert(addr.len() != "/transport_frame"@.len());
    reveal_strlit("/strip/play");
    assert(addr.len() != "/strip/play"@.len());
    reveal_strlit("/select/plugin/parameter/");
    assert(addr[2] == 't');
    assert("/select/plugin/parameter/"@[2] == 'e');
    lemma_other_start(addr, "/select/plugin/parameter/"@, 2);
    reveal_strlit("/select/plugin/parameter/name/");
    assert(addr[2] == 't');
    assert("/select/plugin/parameter/name/"@[2] == 'e');
    lemma_other_start(addr, "/select/plugin/parameter/name/"@, 2);
    reveal_strlit("/select/plugin");
    assert(addr.len() != "/select/plugin"@.len());
    reveal_strlit("/select/plugin/");
    assert(addr[2] == 't');
    assert("/select/plugin/"@[2] == 'e');
    lemma_other_start(addr, "/select/plugin/"@, 2);
    reveal_strlit("/strip/plugin/list");
    assert(addr.len() != "/strip/plugin/list"@.len());
    reveal_strlit("/strip/plugin/inserted");
    assert(addr.len() != "/strip/plugin/inserted"@.len());
    reveal_strlit("/strip/plugin/descriptor");
    assert(addr.len() != "/strip/plugin/descriptor"@.len());
    reveal_strlit("/strip/plugin/descriptor_end");
    assert(addr.len() != "/strip/plugin/descriptor_end"@.len());
}

/// What `/strip/plugin/parameter/values` is about.
proof fn lemma_route_parameter_values()
    ensures
        route("/strip/plugin/parameter/values"@) == Route::ParameterValues,
{
    let addr = "/strip/plugin/parameter/values"@;
    reveal_strlit("/strip/plugin/parameter/values");
    reveal_strlit("/strip/name/");
    assert(addr[7] == 'p');
    assert("/strip/name/"@[7] == 'n');
    lemma_other_start(addr, "/strip/name/"@, 7);
    reveal_strlit("/strip/type/");
    assert(addr[7] == 'p');
    assert("/strip/type/"@[7] == 't');
    lemma_other_start(addr, "/strip/type/"@, 7);
    reveal_strlit("/transport_state");
    assert(addr.len() != "/transport_state"@.len());
    reveal_strlit("/transport_frame");
    assert(addr.len() != "/transport_frame"@.len());
    reveal_strlit("/strip/play");
    assert(addr.len() != "/strip/play"@.len());
    reveal_strlit("/select/plugin/parameter/");
    assert(addr[2] == 't');
    assert("/select/plugin/parameter/"@[2] == 'e');
    lemma_other_start(addr, "/select/plugin/parameter/"@, 2);
    reveal_strlit("/select/plugin/parameter/name/");
    assert(addr[2] == 't');
    assert("/select/plugin/parameter/name/"@[2] == 'e');
    lemma_other_start(addr, "/select/plugin/parameter/name/"@, 2);
    reveal_strlit("/select/plugin");
    assert(addr.len() != "/select/plugin"@.len());
    reveal_strlit("/select/plugin/");
    assert(addr[2] == 't');
    assert("/select/plugin/"@[2] == 'e');
    lemma_other_start(addr, "/select/plugin/"@, 2);
    reveal_strlit("/strip/plugin/list");
    assert(addr.len() != "/strip/plugin/list"@.len());
    reveal_strlit("/strip/plugin/inserted");
    assert(addr.len() != "/strip/plugin/inserted"@.len());
    reveal_strlit("/strip/plugin/descriptor");
    assert(addr.len() != "/strip/plugin/descriptor"@.len());
    reveal_strlit("/strip/plugin/descriptor_end");
    assert(addr.len() != "/strip/plugin/descriptor_end"@.len());
    reveal_strlit("/strip/plugin/parameter/value");
    assert(addr.len() != "/strip/plugin/parameter/value"@.len());
}

/// What `/mixpilot/reply/sample_rate` is about.
proof fn lemma_route_sample_rate()
    ensures
        route("/mixpilot/reply/sample_rate"@) == Route::SampleRate,
{
    let addr = "/mixpilot/reply/sample_rate"@;
    reveal_strlit("/mixpilot/reply/sample_rate");
    reveal_strlit("/strip/name/");
    assert(addr[1] == 'm');
    assert("/strip/name/"@[1] == 's');
    lemma_other_start(addr, "/strip/name/"@, 1);
    reveal_strlit("/strip/type/");
    assert(addr[1] == 'm');
    assert("/strip/type/"@[1] == 's');
    lemma_other_start(addr, "/strip/type/"@, 1);
    reveal_strlit("/transport_state");
    assert(addr.len() != "/transport_state"@.len());
    reveal_strlit("/transport_frame");
    assert(addr.len() != "/transport_frame"@.len());
    reveal_strlit("/strip/play");
    assert(addr.len() != "/strip/play"@.len());
    reveal_strlit("/select/plugin/parameter/");
    assert(addr[1] == 'm');
    assert("/select/plugin/parameter/"@[1] == 's');
    lemma_other_start(addr, "/select/plugin/parameter/"@, 1);
    reveal_strlit("/select/plugin/parameter/name/");
    assert(addr[1] == 'm');
    assert("/select/plugin/parameter/name/"@[1] == 's');
    lemma_other_start(addr, "/select/plugin/parameter/name/"@, 1);
    reveal_strlit("/select/plugin");
    assert(addr.len() != "/select/plugin"@.len());
    reveal_strlit("/select/plugin/");
    assert(addr[1] == 'm');
    assert("/select/plugin/"@[1] == 's');
    lemma_other_start(addr, "/select/plugin/"@, 1);
    reveal_strlit("/strip/plugin/list");
    assert(addr.len() != "/strip/plugin/list"@.len());
    reveal_strlit("/strip/plugin/inserted");
    assert(addr.len() != "/strip/plugin/inserted"@.len());
    reveal_strlit("/strip/plugin/descriptor");
    assert(addr.len() != "/strip/plugin/descriptor"@.len());
    reveal_strlit("/strip/plugin/descriptor_end");
    assert(addr.len() != "/strip/plugin/descriptor_end"@.len());
    reveal_strlit("/strip/plugin/parameter/value");
    assert(addr.len() != "/strip/plugin/parameter/value"@.len());
    reveal_strlit("/strip/plugin/parameter/values");
    assert(addr.len() != "/strip/plugin/parameter/values"@.len());
}

/// What `/mixpilot/reply/loop_range` is about.
proof fn lemma_route_loop_range()
    ensures
        route("/mixpilot/reply/loop_range"@) == Route::LoopRange,
{
    let addr = "/mixpilot/reply/loop_range"@;
    reveal_strlit("/mixpilot/reply/loop_range");
    reveal_strlit("/strip/name/");
    assert(addr[1] == 'm');
    assert("/strip/name/"@[1] == 's');
    lemma_other_start(addr, "/strip/name/"@, 1);
    reveal_strlit("/strip/type/");
    assert(addr[1] == 'm');
    assert("/strip/type/"@[1] == 's');
    lemma_other_start(addr, "/strip/type/"@, 1);
    reveal_strlit("/transport_state");
    assert(addr.len() != "/transport_state"@.len());
    reveal_strlit("/transport_frame");
    assert(addr.len() != "/transport_frame"@.len());
    reveal_strlit("/strip/play");
    assert(addr.len() != "/strip/play"@.len());
    reveal_strlit("/select/plugin/parameter/");
    assert(addr[1] == 'm');
    assert("/select/plugin/parameter/"@[1] == 's');
    lemma_other_start(addr, "/select/plugin/parameter/"@, 1);
    reveal_strlit("/select/plugin/parameter/name/");
    assert(addr[1] == 'm');
    assert("/select/plugin/parameter/name/"@[1] == 's');
    lemma_other_start(addr, "/select/plugin/parameter/name/"@, 1);
    reveal_strlit("/select/plugin");
    assert(addr.len() != "/select/plugin"@.len());
    reveal_strlit("/select/plugin/");
    assert(addr[1] == 'm');
    assert("/select/plugin/"@[1] == 's');
    lemma_other_start(addr, "/select/plugin/"@, 1);
    reveal_strlit("/strip/plugin/list");
    assert(addr.len() != "/strip/plugin/list"@.len());
    reveal_strlit("/strip/plugin/inserted");
    assert(addr.len() != "/strip/plugin/inserted"@.len());
    reveal_strlit("/strip/plugin/descriptor");
    assert(addr.len() != "/strip/plugin/descriptor"@.len());
    reveal_strlit("/strip/plugin/descriptor_end");
    assert(addr.len() != "/strip/plugin/descriptor_end"@.len());
    reveal_strlit("/strip/plugin/parameter/value");
    assert(addr.len() != "/strip/plugin/parameter/value"@.len());
    reveal_strlit("/strip/plugin/parameter/values");
    assert(addr.len() != "/strip/plugin/parameter/values"@.len());
    reveal_strlit("/mixpilot/reply/sample_rate");
    assert(addr.len() != "/mixpilot/reply/sample_rate"@.len());
}

/// What `/mixpilot/reply/auto_value` is about.
proof fn lemma_route_auto_value()
    ensures
        route("/mixpilot/reply/auto_value"@) == Route::AutoValue,
{
    let addr = "/mixpilot/reply/auto_value"@;
    reveal_strlit("/mixpilot/reply/auto_value");
    reveal_strlit("/strip/name/");
    assert(addr[1] == 'm');
    assert("/strip/name/"@[1] == 's');
    lemma_other_start(addr, "/strip/name/"@, 1);
    reveal_strlit("/strip/type/");
    assert(addr[1] == 'm');
    assert("/strip/type/"@[1] == 's');
    lemma_other_start(addr, "/strip/type/"@, 1);
    reveal_strlit("/transport_state");
    assert(addr.len() != "/transport_state"@.len());
    reveal_strlit("/transport_frame");
    assert(addr.len() != "/transport_frame"@.len());
    reveal_strlit("/strip/play");
    assert(addr.len() != "/strip/play"@.len());
    reveal_strlit("/select/plugin/parameter/");
    assert(addr[1] == 'm');
    assert("/select/plugin/parameter/"@[1] == 's');
    lemma_other_start(addr, "/select/plugin/parameter/"@, 1);
    reveal_strlit("/select/plugin/parameter/name/");
    assert(addr[1] == 'm');
    assert("/select/plugin/parameter/name/"@[1] == 's');
    lemma_other_start(addr, "/select/plugin/parameter/name/"@, 1);
    reveal_strlit("/select/plugin");
    assert(addr.len() != "/select/plugin"@.len());
    reveal_strlit("/select/plugin/");
    assert(addr[1] == 'm');
    assert("/select/plugin/"@[1] == 's');
    lemma_other_start(addr, "/select/plugin/"@, 1);
    reveal_strlit("/strip/plugin/list");
    assert(addr.len() != "/strip/plugin/list"@.len());
    reveal_strlit("/strip/plugin/inserted");
    assert(addr.len() != "/strip/plugin/inserted"@.len());
    reveal_strlit("/strip/plugin/descriptor");
    assert(addr.len() != "/strip/plugin/descriptor"@.len());
    reveal_strlit("/strip/plugin/descriptor_end");
    assert(addr.len() != "/strip/plugin/descriptor_end"@.len());
    reveal_strlit("/strip/plugin/parameter/value");
    assert(addr.len() != "/strip/plugin/parameter/value"@.len());
    reveal_strlit("/strip/plugin/parameter/values");
    assert(addr.len() != "/strip/plugin/parameter/values"@.len());
    reveal_strlit("/mixpilot/reply/sample_rate");
    assert(addr.len() != "/mixpilot/reply/sample_rate"@.len());
    reveal_strlit("/mixpilot/reply/loop_range");
    assert(addr[16] == 'a');
    assert("/mixpilot/reply/loop_range"@[16] == 'l');
}

/// What `/strip/list` is about.
proof fn lemma_route_strip_list()
    ensures
        route("/strip/list"@) == Route::StripList,
{
    let addr = "/strip/list"@;
    reveal_strlit("/strip/list");
    reveal_strlit("/strip/name/");
    assert(addr[7] == 'l');
    assert("/strip/name/"@[7] == 'n');
    lemma_other_start(addr, "/strip/name/"@, 7);
    reveal_strlit("/strip/type/");
    assert(addr[7] == 'l');
    assert("/strip/type/"@[7] == 't');
    lemma_other_start(addr, "/strip/type/"@, 7);
    reveal_strlit("/transport_state");
    assert(addr.len() != "/transport_state"@.len());
    reveal_strlit("/transport_frame");
    assert(addr.len() != "/transport_frame"@.len());
    reveal_strlit("/strip/play");
    assert(addr[7] == 'l');
    assert("/strip/play"@[7] == 'p');
    reveal_strlit("/select/plugin/parameter/");
    assert(addr[2] == 't');
    assert("/select/plugin/parameter/"@[2] == 'e');
    lemma_other_start(addr, "/select/plugin/parameter/"@, 2);
    reveal_strlit("/select/plugin/parameter/name/");
    assert(addr[2] == 't');
    assert("/select/plugin/parameter/name/"@[2] == 'e');
    lemma_other_start(addr, "/select/plugin/parameter/name/"@, 2);
    reveal_strlit("/select/plugin");
    assert(addr.len() != "/select/plugin"@.len());
    reveal_strlit("/select/plugin/");
    assert(addr[2] == 't');
    assert("/select/plugin/"@[2] == 'e');
    lemma_other_start(addr, "/select/plugin/"@, 2);
    reveal_strlit("/strip/plugin/list");
    assert(addr.len() != "/strip/plugin/list"@.len());
    reveal_strlit("/strip/plugin/inserted");
    assert(addr.len() != "/strip/plugin/inserted"@.len());
    reveal_strlit("/strip/plugin/descriptor");
    assert(addr.len() != "/strip/plugin/descriptor"@.len());
    reveal_strlit("/strip/plugin/descriptor_end");
    assert(addr.len() != "/strip/plugin/descriptor_end"@.len());
    reveal_strlit("/strip/plugin/parameter/value");
    assert(addr.len() != "/strip/plugin/parameter/value"@.len());
    reveal_strlit("/strip/plugin/parameter/values");
    assert(addr.len() != "/strip/plugin/parameter/values"@.len());
    reveal_strlit("/mixpilot/reply/sample_rate");
    assert(addr.len() != "/mixpilot/reply/sample_rate"@.len());
    reveal_strlit("/mixpilot/reply/loop_range");
    assert(addr.len() != "/mixpilot/reply/loop_range"@.len());
    reveal_strlit("/mixpilot/reply/auto_value");
    assert(addr.len() != "/mixpilot/reply/auto_value"@.len());
}

/// What `/strip/select` is about.
proof fn lemma_route_strip_select()
    ensures
        route("/strip/select"@) == Route::StripSelect,
{
    let addr = "/strip/select"@;
    reveal_strlit("/strip/select");
    reveal_strlit("/strip/name/");
    assert(addr[7] == 's');
    assert("/strip/name/"@[7] == 'n');
    lemma_other_start(addr, "/strip/name/"@, 7);
    reveal_strlit("/strip/type/");
    assert(addr[7] == 's');
    assert("/strip/type/"@[7] == 't');
    lemma_other_start(addr, "/strip/type/"@, 7);
    reveal_strlit("/transport_state");
    assert(addr.len() != "/transport_state"@.len());
    reveal_strlit("/transport_frame");
    assert(addr.len() != "/transport_frame"@.len());
    reveal_strlit("/strip/play");
    assert(addr.len() != "/strip/play"@.len());
    reveal_strlit("/select/plugin/parameter/");
    assert(addr[2] == 't');
    assert("/select/plugin/parameter/"@[2] == 'e');
    lemma_other_start(addr, "/select/plugin/parameter/"@, 2);
    reveal_strlit("/select/plugin/parameter/name/");
    assert(addr[2] == 't');
    assert("/select/plugin/parameter/name/"@[2] == 'e');
    lemma_other_start(addr, "/select/plugin/parameter/name/"@, 2);
    reveal_strlit("/select/plugin");
    assert(addr.len() != "/select/plugin"@.len());
    reveal_strlit("/select/plugin/");
    assert(addr[2] == 't');
    assert("/select/plugin/"@[2] == 'e');
    lemma_other_start(addr, "/select/plugin/"@, 2);
    reveal_strlit("/strip/plugin/list");
    assert(addr.len() != "/strip/plugin/list"@.len());
    reveal_strlit("/strip/plugin/inserted");
    assert(addr.len() != "/strip/plugin/inserted"@.len());
    reveal_strlit("/strip/plugin/descriptor");
    assert(addr.len() != "/strip/plugin/descriptor"@.len());
    reveal_strlit("/strip/plugin/descriptor_end");
    assert(addr.len() != "/strip/plugin/descriptor_end"@.len());
    reveal_strlit("/strip/plugin/parameter/value");
    assert(addr.len() != "/strip/plugin/parameter/value"@.len());
    reveal_strlit("/strip/plugin/parameter/values");
    assert(addr.len() != "/strip/plugin/parameter/values"@.len());
    reveal_strlit("/mixpilot/reply/sample_rate");
    assert(addr.len() != "/mixpilot/reply/sample_rate"@.len());
    reveal_strlit("/mixpilot/reply/loop_range");
    assert(addr.len() != "/mixpilot/reply/loop_range"@.len());
    reveal_strlit("/mixpilot/reply/auto_value");
    assert(addr.len() != "/mixpilot/reply/auto_value"@.len());
    reveal_strlit("/strip/list");
    assert(addr.len() != "/strip/list"@.len());
}

/// Each kind of report and reply is told by its own address.
pub proof fn lemma_addresses()
    ensures
        route("/transport_state"@) == Route::TransportState,
        route("/transport_frame"@) == Route::TransportFrame,
        route("/strip/play"@) == Route::StripPlay,
        route("/select/plugin"@) == Route::PluginSelected,
        route("/strip/plugin/list"@) == Route::PluginList,
        route("/strip/plugin/inserted"@) == Route::PluginInserted,
        route("/strip/plugin/descriptor"@) == Route::Descriptor,
        route("/strip/plugin/descriptor_end"@) == Route::DescriptorEnd,
        route("/strip/plugin/parameter/value"@) == Route::ParameterValue,
        route("/strip/plugin/parameter/values"@) == Route::ParameterValues,
        route("/mixpilot/reply/sample_rate"@) == Route::SampleRate,
        route("/mixpilot/reply/loop_range"@) == Route::LoopRange,
        route("/mixpilot/reply/auto_value"@) == Route::AutoValue,
        route("/strip/list"@) == Route::StripList,
        route("/strip/select"@) == Route::StripSelect,
{
    lemma_route_transport_state();
    lemma_route_transport_frame();
    lemma_route_strip_play();
    lemma_route_plugin_selected();
    lemma_route_plugin_list();
    lemma_route_plugin_inserted();
    lemma_route_descriptor();
    lemma_route_descriptor_end();
    lemma_route_parameter_value();
    lemma_route_parameter_values();
    lemma_route_sample_rate();
    lemma_route_loop_range();
    lemma_route_auto_value();
    lemma_route_strip_list();
    lemma_route_strip_select();
}
} // verus!
