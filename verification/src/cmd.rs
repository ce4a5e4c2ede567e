//! Well-known Command names and the OpMode-list payload, as used by the
//! stock Driver Station.

use vstd::prelude::*;

verus! {

// DS -> RC requests.
pub const REQUEST_OP_MODE_LIST: &'static str = "CMD_REQUEST_OP_MODE_LIST";
/// Extra: the OpMode name (raw string).
pub const INIT_OP_MODE: &'static str = "CMD_INIT_OP_MODE";
/// Extra: the OpMode name (raw string).
pub const RUN_OP_MODE: &'static str = "CMD_RUN_OP_MODE";
pub const REQUEST_ACTIVE_CONFIG: &'static str = "CMD_REQUEST_ACTIVE_CONFIG";
pub const REQUEST_CONFIGURATIONS: &'static str = "CMD_REQUEST_CONFIGURATIONS";
pub const REQUEST_PARTICULAR_CONFIGURATION: &'static str = "CMD_REQUEST_PARTICULAR_CONFIGURATION";
pub const REQUEST_USER_DEVICE_TYPES: &'static str = "CMD_REQUEST_USER_DEVICE_TYPES";
/// Extra: the configuration JSON.
pub const SAVE_CONFIGURATION: &'static str = "CMD_SAVE_CONFIGURATION";
/// Extra: a `ConfigMeta` as JSON.
pub const ACTIVATE_CONFIGURATION: &'static str = "CMD_ACTIVATE_CONFIGURATION";
/// Extra: a `ConfigMeta` as JSON.
pub const DELETE_CONFIGURATION: &'static str = "CMD_DELETE_CONFIGURATION";
pub const RESTART_ROBOT: &'static str = "CMD_RESTART_ROBOT";
pub const SCAN: &'static str = "CMD_SCAN";
pub const DISCOVER_LYNX_MODULES: &'static str = "CMD_DISCOVER_LYNX_MODULES";

// RC -> DS notifications and responses.
/// Extra: the OpMode list as JSON.
pub const NOTIFY_OP_MODE_LIST: &'static str = "CMD_NOTIFY_OP_MODE_LIST";
/// Extra: the OpMode name.
pub const NOTIFY_INIT_OP_MODE: &'static str = "CMD_NOTIFY_INIT_OP_MODE";
/// Extra: the OpMode name.
pub const NOTIFY_RUN_OP_MODE: &'static str = "CMD_NOTIFY_RUN_OP_MODE";
pub const NOTIFY_ACTIVE_CONFIGURATION: &'static str = "CMD_NOTIFY_ACTIVE_CONFIGURATION";
pub const NOTIFY_USER_DEVICE_LIST: &'static str = "CMD_NOTIFY_USER_DEVICE_LIST";
pub const REQUEST_CONFIGURATIONS_RESP: &'static str = "CMD_REQUEST_CONFIGURATIONS_RESP";
pub const REQUEST_PARTICULAR_CONFIGURATION_RESP: &'static str =
    "CMD_REQUEST_PARTICULAR_CONFIGURATION_RESP";
pub const SCAN_RESP: &'static str = "CMD_SCAN_RESP";
pub const DISCOVER_LYNX_MODULES_RESP: &'static str = "CMD_DISCOVER_LYNX_MODULES_RESP";
/// Extra: the stacktrace text.
pub const SHOW_STACKTRACE: &'static str = "CMD_SHOW_STACKTRACE";

// The RC webcam stream (`CameraStreamServer`).
/// DS -> RC: asks for the next webcam frame.
pub const REQUEST_FRAME: &'static str = "CMD_REQUEST_FRAME";
/// RC -> DS. Extra: `true` or `false`, whether a webcam stream is available.
pub const STREAM_CHANGE: &'static str = "CMD_STREAM_CHANGE";
/// RC -> DS. Extra: a frame's number and length, as JSON.
pub const RECEIVE_FRAME_BEGIN: &'static str = "CMD_RECEIVE_FRAME_BEGIN";
/// RC -> DS. Extra: one base64 chunk of a frame, as JSON.
pub const RECEIVE_FRAME_CHUNK: &'static str = "CMD_RECEIVE_FRAME_CHUNK";

/// The SDK's built-in idle OpMode. The stock DS "stops" a running OpMode by
/// initing this one.
pub const DEFAULT_OP_MODE: &'static str = "$Stop$Robot$";

/// One entry of the RC's OpMode list.
#[derive(Debug, Clone, PartialEq, Eq)]
pub struct OpModeMeta {
    pub name: String,
    pub flavor: String,
    pub group: String,
}

/// An OpMode entry as a value.
pub struct OpModeMetaView {
    pub name: Seq<char>,
    pub flavor: Seq<char>,
    pub group: Seq<char>,
}

impl View for OpModeMeta {
    type V = OpModeMetaView;

    open spec fn view(&self) -> OpModeMetaView {
        OpModeMetaView { name: self.name@, flavor: self.flavor@, group: self.group@ }
    }
}

/// A robot configuration as the RC lists it.
#[derive(Debug, Clone, PartialEq)]
pub struct ConfigMeta {
    pub is_dirty: bool,
    pub location: String,
    pub name: String,
    pub resource_id: i64,
}

/// A configuration's description as a value.
pub struct ConfigMetaView {
    pub is_dirty: bool,
    pub location: Seq<char>,
    pub name: Seq<char>,
    pub resource_id: i64,
}

impl View for ConfigMeta {
    type V = ConfigMetaView;

    open spec fn view(&self) -> ConfigMetaView {
        ConfigMetaView {
            is_dirty: self.is_dirty,
            location: self.location@,
            name: self.name@,
            resource_id: self.resource_id,
        }
    }
}

impl ConfigMeta {
    /// A copy of the description.
    pub fn copy(&self) -> (r: ConfigMeta)
        ensures
            r@ == self@,
    {
        ConfigMeta {
            is_dirty: self.is_dirty,
            location: self.location.clone(),
            name: self.name.clone(),
            resource_id: self.resource_id,
        }
    }
}

pub open spec fn configs_view(v: Seq<ConfigMeta>) -> Seq<ConfigMetaView> {
    v.map_values(|m: ConfigMeta| m@)
}

pub open spec fn opmodes_view(v: Seq<OpModeMeta>) -> Seq<OpModeMetaView> {
    v.map_values(|m: OpModeMeta| m@)
}

/// OpMode entries that carry only a name.
pub open spec fn named_opmodes(names: Seq<Seq<char>>) -> Seq<OpModeMetaView> {
    names.map_values(
        |n: Seq<char>| OpModeMetaView { name: n, flavor: Seq::empty(), group: Seq::empty() },
    )
}

/// The strings of `text` read as a JSON array of strings, as serde_json reads
/// it, or `None` where it is not one.
pub uninterp spec fn json_string_array(text: Seq<char>) -> Option<Seq<Seq<char>>>;

pub open spec fn names_view(r: Option<Vec<String>>) -> Option<Seq<Seq<char>>> {
    match r {
        Some(v) => Some(v@.map_values(|s: String| s@)),
        None => None,
    }
}

/// `serde_json::from_str::<Vec<String>>`: the claim is only that its result
/// depends on the text alone, and is named `json_string_array`.
#[verifier::external_body]
fn json_string_list(text: &str) -> (r: Option<Vec<String>>)
    ensures
        names_view(r) == json_string_array(text@),
{
    match serde_json::from_str::<Vec<String>>(text) {
        Ok(v) => Some(v),
        Err(_) => None,
    }
}

/// The OpMode list that a list of bare names stands for: one entry per
/// name, with empty flavor and group; no names read, no entries.
pub fn opmodes_from_names(names: Option<Vec<String>>) -> (r: Vec<OpModeMeta>)
    ensures
        opmodes_view(r@) == match names_view(names) {
            Some(n) => named_opmodes(n),
            None => Seq::empty(),
        },
{
    let mut out: Vec<OpModeMeta> = Vec::new();
    match names {
        None => {
            assert(opmodes_view(out@) =~= Seq::<OpModeMetaView>::empty());
        },
        Some(v) => {
            let ghost n = names_view(Some(v))->0;
            let mut i: usize = 0;
            while i < v.len()
                invariant
                    i <= v@.len(),
                    n == v@.map_values(|s: String| s@),
                    opmodes_view(out@) =~= named_opmodes(n.take(i as int)),
                decreases v@.len() - i,
            {
                let name = v[i].clone();
                let ghost before = opmodes_view(out@);
                out.push(OpModeMeta { name, flavor: String::new(), group: String::new() });
                assert(opmodes_view(out@) =~= before.push(
                    OpModeMetaView { name: n[i as int], flavor: Seq::empty(), group: Seq::empty() },
                ));
                assert(n.take(i + 1) =~= n.take(i as int).push(n[i as int]));
                i = i + 1;
            }
            assert(n.take(i as int) =~= n);
        },
    }
    out
}

/// Reads the CMD_NOTIFY_OP_MODE_LIST payload. The object form
/// (`[{"name": .., "flavor": .., "group": ..}]`), read elsewhere into
/// `objects`, wins; failing that, a plain array of names is accepted, since
/// the shape varies by SDK version; anything else gives an empty list.
pub fn parse_opmode_list(objects: Option<Vec<OpModeMeta>>, extra: &str) -> (r: Vec<OpModeMeta>)
    ensures
        opmodes_view(r@) == match objects {
            Some(m) => opmodes_view(m@),
            None => match json_string_array(extra@) {
                Some(n) => named_opmodes(n),
                None => Seq::empty(),
            },
        },
{
    match objects {
        Some(m) => m,
        None => opmodes_from_names(json_string_list(extra)),
    }
}

} // verus!
