//! Reading synthetic captures: both container formats, the link layers, and
//! IPv4 reassembly of fragmented datagrams.

use robocol::capture::net::{
    datagrams, infer_rc, strip_link, Datagram, LINKTYPE_ETHERNET, LINKTYPE_NULL,
};
use robocol::client::Endpoint;
use robocol::packets::Telemetry;
use robocol::capture::pcap::{read, readable, Frame, Resolution, Timestamp};
use robocol::client::Ip;
use robocol::packets::{Command, Packet, PeerDiscovery};
use robocol::capture::report::{format_line, opmode_object_fields, Report};
use robocol::capture::net::robocol_datagrams;
use robocol::cmd::OpModeMeta;

const PORT: u16 = 20884;
const DS: [u8; 4] = [192, 168, 43, 100];
const RC: [u8; 4] = [192, 168, 43, 1];

fn ethernet(payload: &[u8]) -> Vec<u8> {
    let mut frame = vec![0u8; 12];
    frame.extend_from_slice(&0x0800u16.to_be_bytes());
    frame.extend_from_slice(payload);
    frame
}

fn ip_fragments(src: [u8; 4], dst: [u8; 4], datagram: &[u8], mtu_payload: usize) -> Vec<Vec<u8>> {
    let step = (mtu_payload / 8).max(1) * 8;
    let mut out = Vec::new();
    let mut offset = 0;
    while offset < datagram.len() {
        let end = (offset + step).min(datagram.len());
        let more = end < datagram.len();
        let chunk = &datagram[offset..end];
        let mut header = vec![0u8; 20];
        header[0] = 0x45;
        let total = (20 + chunk.len()) as u16;
        header[2..4].copy_from_slice(&total.to_be_bytes());
        header[4..6].copy_from_slice(&0x1234u16.to_be_bytes());
        let flags = if more { 0x2000 } else { 0 } | ((offset / 8) as u16);
        header[6..8].copy_from_slice(&flags.to_be_bytes());
        header[8] = 64;
        header[9] = 17;
        header[12..16].copy_from_slice(&src);
        header[16..20].copy_from_slice(&dst);
        header.extend_from_slice(chunk);
        out.push(header);
        offset = end;
    }
    out
}

fn udp_datagram(payload: &[u8]) -> Vec<u8> {
    let mut datagram = Vec::new();
    datagram.extend_from_slice(&PORT.to_be_bytes());
    datagram.extend_from_slice(&PORT.to_be_bytes());
    datagram.extend_from_slice(&((payload.len() + 8) as u16).to_be_bytes());
    datagram.extend_from_slice(&0u16.to_be_bytes());
    datagram.extend_from_slice(payload);
    datagram
}

fn classic_pcap(frames: &[Vec<u8>]) -> Vec<u8> {
    let mut out = Vec::new();
    out.extend_from_slice(&0xa1b2c3d4u32.to_le_bytes());
    out.extend_from_slice(&2u16.to_le_bytes());
    out.extend_from_slice(&4u16.to_le_bytes());
    out.extend_from_slice(&0i32.to_le_bytes());
    out.extend_from_slice(&0u32.to_le_bytes());
    out.extend_from_slice(&65535u32.to_le_bytes());
    out.extend_from_slice(&1u32.to_le_bytes());
    for (i, frame) in frames.iter().enumerate() {
        out.extend_from_slice(&(1_700_000_000 + i as u32).to_le_bytes());
        out.extend_from_slice(&7u32.to_le_bytes());
        out.extend_from_slice(&(frame.len() as u32).to_le_bytes());
        out.extend_from_slice(&(frame.len() as u32).to_le_bytes());
        out.extend_from_slice(frame);
    }
    out
}

fn block(block_type: u32, body: &[u8]) -> Vec<u8> {
    let total = (12 + body.len()) as u32;
    let mut out = Vec::new();
    out.extend_from_slice(&block_type.to_le_bytes());
    out.extend_from_slice(&total.to_le_bytes());
    out.extend_from_slice(body);
    out.extend_from_slice(&total.to_le_bytes());
    out
}

fn pcapng(frames: &[Vec<u8>], tsresol: Option<u8>) -> Vec<u8> {
    let mut shb = Vec::new();
    shb.extend_from_slice(&0x1a2b3c4du32.to_le_bytes());
    shb.extend_from_slice(&1u16.to_le_bytes());
    shb.extend_from_slice(&0u16.to_le_bytes());
    shb.extend_from_slice(&(-1i64).to_le_bytes());
    let mut out = block(0x0a0d0d0a, &shb);
    let mut idb = Vec::new();
    idb.extend_from_slice(&1u16.to_le_bytes());
    idb.extend_from_slice(&0u16.to_le_bytes());
    idb.extend_from_slice(&65535u32.to_le_bytes());
    if let Some(r) = tsresol {
        idb.extend_from_slice(&9u16.to_le_bytes());
        idb.extend_from_slice(&1u16.to_le_bytes());
        idb.extend_from_slice(&[r, 0, 0, 0]);
        idb.extend_from_slice(&[0, 0, 0, 0]);
    }
    out.extend_from_slice(&block(1, &idb));
    for frame in frames {
        let mut epb = Vec::new();
        epb.extend_from_slice(&0u32.to_le_bytes());
        epb.extend_from_slice(&1u32.to_le_bytes());
        epb.extend_from_slice(&2u32.to_le_bytes());
        epb.extend_from_slice(&(frame.len() as u32).to_le_bytes());
        epb.extend_from_slice(&(frame.len() as u32).to_le_bytes());
        epb.extend_from_slice(frame);
        while epb.len() % 4 != 0 {
            epb.push(0);
        }
        out.extend_from_slice(&block(6, &epb));
    }
    out
}

fn only(datagrams: &[Datagram]) -> &Datagram {
    assert_eq!(datagrams.len(), 1);
    &datagrams[0]
}

#[test]
fn reads_a_classic_capture() {
    let payload = Command::new("CMD_SCAN", "", 1).serialize();
    let frame = ethernet(&ip_fragments(DS, RC, &udp_datagram(&payload), 65535)[0]);
    let bytes = classic_pcap(&[frame.clone()]);
    assert!(readable(&bytes));
    let frames = read(&bytes).unwrap();
    assert_eq!(
        frames,
        vec![Frame {
            ts: Timestamp::Split { sec: 1_700_000_000, frac: 7, nanos: false },
            linktype: 1,
            data: frame,
        }]
    );
    let (dgs, skipped) = datagrams(&frames);
    assert_eq!(skipped, 0);
    let d = only(&dgs);
    assert_eq!(d.src, Ip::V4(0xC0A8_2B64));
    assert_eq!(d.dst, Ip::V4(0xC0A8_2B01));
    assert_eq!((d.sport, d.dport), (PORT, PORT));
    assert!(!d.fragmented);
    assert_eq!(Packet::parse(&d.payload), Ok(Packet::Command(Command::new("CMD_SCAN", "", 1))));
}

#[test]
fn reads_a_pcapng_capture_with_its_resolution() {
    let frame = ethernet(&ip_fragments(DS, RC, &udp_datagram(b"hi"), 65535)[0]);
    let bytes = pcapng(&[frame.clone()], Some(0x89));
    assert!(readable(&bytes));
    let frames = read(&bytes).unwrap();
    assert_eq!(frames.len(), 1);
    assert_eq!(
        frames[0].ts,
        Timestamp::Ticks { ticks: (1u64 << 32) | 2, resolution: Resolution::Binary(9) }
    );
    assert_eq!(frames[0].data, frame);
    let plain = read(&pcapng(&[frame], None)).unwrap();
    assert_eq!(plain[0].ts, Timestamp::Ticks { ticks: (1u64 << 32) | 2, resolution: Resolution::Decimal(6) });
}

#[test]
fn capture_errors() {
    assert_eq!(read(&[1, 2]), Err("file too short to be a capture".to_string()));
    assert_eq!(read(&[0xd4, 0xc3, 0xb2, 0xa1]), Err("truncated pcap header".to_string()));
    let mut bad = vec![0u8; 24];
    bad[..4].copy_from_slice(&[0xde, 0xad, 0xbe, 0xef]);
    assert_eq!(read(&bad), Err("not a pcap file (magic 0xdeadbeef)".to_string()));
    let mut ng = vec![0x0a, 0x0d, 0x0d, 0x0a, 28, 0, 0, 0, 1, 2, 3, 4];
    ng.extend_from_slice(&[0u8; 16]);
    assert_eq!(read(&ng), Err("pcapng byte-order magic not recognized".to_string()));
    // Too short for its byte-order magic: not for `read`.
    assert!(!readable(&[0x0a, 0x0d, 0x0d, 0x0a, 0, 0]));
}

#[test]
fn a_truncated_record_ends_the_capture() {
    let mut bytes = classic_pcap(&[vec![1, 2, 3], vec![4, 5, 6]]);
    bytes.truncate(bytes.len() - 1);
    let frames = read(&bytes).unwrap();
    assert_eq!(frames.len(), 1);
    assert_eq!(frames[0].data, vec![1, 2, 3]);
}

#[test]
fn reassembles_a_fragmented_opmode_list() {
    let big: Vec<String> = (0..80)
        .map(|i| format!(r#"{{"name":"OpMode{i}","flavor":"TELEOP","group":"g"}}"#))
        .collect();
    let extra = format!("[{}]", big.join(","));
    let notify = Command::new("CMD_NOTIFY_OP_MODE_LIST", &extra, 5);
    let payload = notify.serialize();
    assert!(payload.len() > 1480, "test payload must exceed one MTU");
    let fragments = ip_fragments(RC, DS, &udp_datagram(&payload), 1400);
    assert!(fragments.len() > 1, "payload should have fragmented");
    // Deliver out of order: the last fragment first.
    let mut frames_bytes: Vec<Vec<u8>> = fragments.iter().map(|f| ethernet(f)).collect();
    frames_bytes.rotate_right(1);
    let frames = read(&classic_pcap(&frames_bytes)).unwrap();
    let (dgs, skipped) = datagrams(&frames);
    assert_eq!(skipped, 0);
    let d = only(&dgs);
    assert!(d.fragmented);
    assert_eq!(d.ts, frames[0].ts);
    assert_eq!(Packet::parse(&d.payload), Ok(Packet::Command(notify)));

    let mut with_telemetry = frames_bytes.clone();
    with_telemetry.push(ethernet(&udp_packet(RC, DS, &Telemetry::default().serialize())));
    let out = run(&with_telemetry, false);
    assert!(out.contains("reassembled"), "{out}");
    assert!(out.contains("80 entries in JSON, 80 survived"), "{out}");
}

#[test]
fn incomplete_fragments_give_nothing() {
    let fragments = ip_fragments(RC, DS, &udp_datagram(&[7u8; 3000]), 1000);
    let frames: Vec<Frame> = fragments[..fragments.len() - 1]
        .iter()
        .map(|f| Frame { ts: Timestamp::Split { sec: 0, frac: 0, nanos: false }, linktype: 1, data: ethernet(f) })
        .collect();
    let (dgs, skipped) = datagrams(&frames);
    assert!(dgs.is_empty());
    assert_eq!(skipped, 0);
}

#[test]
fn link_layers() {
    let ip = ip_fragments(DS, RC, &udp_datagram(b"x"), 65535).remove(0);
    assert_eq!(strip_link(LINKTYPE_ETHERNET, &ethernet(&ip)), Some(14));
    let mut vlan = vec![0u8; 12];
    vlan.extend_from_slice(&[0x81, 0x00, 0, 5, 0x08, 0x00]);
    vlan.extend_from_slice(&ip);
    assert_eq!(strip_link(LINKTYPE_ETHERNET, &vlan), Some(18));
    let mut arp = vec![0u8; 12];
    arp.extend_from_slice(&[0x08, 0x06]);
    assert_eq!(strip_link(LINKTYPE_ETHERNET, &arp), None);
    assert_eq!(strip_link(LINKTYPE_NULL, &[2, 0, 0, 0, 0x45]), Some(4));
    assert_eq!(strip_link(113, &[0u8; 15]), None);
    assert_eq!(strip_link(999, &ip), None);
    // A frame with no IP is counted as skipped.
    let frames = vec![Frame { ts: Timestamp::Split { sec: 0, frac: 0, nanos: false }, linktype: 1, data: arp }];
    assert_eq!(datagrams(&frames).1, 1);
}

#[test]
fn ipv6_udp() {
    let mut ip = vec![0u8; 40];
    ip[0] = 0x60;
    ip[6] = 17;
    ip[8 + 15] = 1;
    ip[24 + 15] = 2;
    ip.extend_from_slice(&udp_datagram(b"v6"));
    let frames = vec![Frame { ts: Timestamp::Split { sec: 0, frac: 0, nanos: false }, linktype: 101, data: ip }];
    let (dgs, _) = datagrams(&frames);
    let d = only(&dgs);
    assert_eq!(d.src, Ip::V6(1));
    assert_eq!(d.dst, Ip::V6(2));
    assert_eq!(d.payload, b"v6".to_vec());
}

fn dg(src: u32, sport: u16, payload: Vec<u8>) -> Datagram {
    Datagram {
        ts: Timestamp::Split { sec: 0, frac: 0, nanos: false },
        src: Ip::V4(src),
        dst: Ip::V4(9),
        sport,
        dport: PORT,
        payload,
        fragmented: false,
    }
}

#[test]
fn the_rc_is_who_sends_telemetry_else_notifications() {
    let notify = Command::new("CMD_NOTIFY_RUN_OP_MODE", "Duo", 1).serialize();
    let request = Command::new("CMD_SCAN", "", 1).serialize();
    let telemetry = Telemetry::default().serialize();
    let only_commands = vec![dg(1, 10, request.clone()), dg(2, 20, notify.clone()), dg(2, 20, notify.clone())];
    assert_eq!(infer_rc(&only_commands), vec![Endpoint { ip: Ip::V4(2), port: 20 }]);
    let mut with_telemetry = only_commands.clone();
    with_telemetry.push(dg(3, 30, telemetry.clone()));
    with_telemetry.push(dg(4, 40, telemetry));
    assert_eq!(
        infer_rc(&with_telemetry),
        vec![Endpoint { ip: Ip::V4(3), port: 30 }, Endpoint { ip: Ip::V4(4), port: 40 }]
    );
    assert!(infer_rc(&[dg(1, 10, request)]).is_empty());
}

// ---------------------------------------------------------------------------
// The listing and the end-of-run report
// ---------------------------------------------------------------------------

fn udp_packet(src: [u8; 4], dst: [u8; 4], payload: &[u8]) -> Vec<u8> {
    let mut f = ip_fragments(src, dst, &udp_datagram(payload), 65535);
    assert_eq!(f.len(), 1, "unfragmented helper must emit one packet");
    f.remove(0)
}

/// The object form of an OpMode list, as the application layer reads it.
fn object_form(extra: &str) -> Option<Vec<OpModeMeta>> {
    let value: serde_json::Value = serde_json::from_str(extra).ok()?;
    let mut out = Vec::new();
    for item in value.as_array()? {
        let obj = item.as_object()?;
        let field = |key: &str| -> Option<String> {
            match obj.get(key) {
                None => Some(String::new()),
                Some(v) => v.as_str().map(str::to_string),
            }
        };
        out.push(OpModeMeta { name: obj.get("name")?.as_str()?.to_string(), flavor: field("flavor")?, group: field("group")? });
    }
    Some(out)
}

fn report_objects(parsed: &Result<Packet, robocol::wire::Error>) -> Option<Vec<OpModeMeta>> {
    match parsed {
        Ok(Packet::Command(c)) => object_form(&c.extra),
        _ => None,
    }
}

/// Decodes a capture of `frames` into its listing and report, one string.
fn run(frames: &[Vec<u8>], all: bool) -> String {
    let frames = read(&classic_pcap(frames)).unwrap();
    let (dgs, skipped) = datagrams(&frames);
    let dgs: Vec<Datagram> = dgs.into_iter().filter(|d| d.sport == PORT || d.dport == PORT).collect();
    let rc = infer_rc(&dgs);
    let mut report = Report::new(rc.clone());
    let mut out = Vec::new();
    for d in &dgs {
        let parsed = Packet::parse(&d.payload);
        report.observe(d, &parsed, report_objects(&parsed));
        if let Some(line) = format_line(d, &parsed, &rc, 300, all) {
            out.push(line);
        }
    }
    out.push(String::new());
    out.extend(report.lines(frames.len(), skipped));
    out.join("\n")
}

const NEW_SDK_LIST: &str = r#"[
    {"name":"Blue Auto","flavor":"AUTONOMOUS","group":"comp"},
    {"name":"Main TeleOp","flavor":"TELEOP","group":"comp"},
    {"name":"Motor Tuner","flavor":"TUNING","group":"tuning","autoTransition":"Main TeleOp"}
]"#;

#[test]
fn flags_new_flavor_and_dropped_field() {
    let frames = vec![
        ethernet(&udp_packet(RC, DS, &Telemetry::default().serialize())),
        ethernet(&udp_packet(RC, DS, &Command::new("CMD_NOTIFY_OP_MODE_LIST", NEW_SDK_LIST, 1).serialize())),
    ];
    let out = run(&frames, false);
    assert!(out.contains("\"TUNING\""), "{out}");
    assert!(out.contains("autoTransition"), "{out}");
    assert!(out.contains("3 entries in JSON, 3 survived"), "{out}");
}

#[test]
fn flags_unknown_command_and_version_skew() {
    let newer = PeerDiscovery { robocol_version: 125, sdk_minor_version: 2, ..PeerDiscovery::default() };
    let frames = vec![
        ethernet(&udp_packet(RC, DS, &Telemetry::default().serialize())),
        ethernet(&udp_packet(RC, DS, &newer.serialize())),
        ethernet(&udp_packet(RC, DS, &Command::new("CMD_NOTIFY_SOMETHING_NEW", "{}", 2).serialize())),
    ];
    let out = run(&frames, false);
    assert!(out.contains("CMD_NOTIFY_SOMETHING_NEW"), "{out}");
    assert!(out.contains("not declared in robocol::cmd"), "{out}");
    assert!(out.contains("consider bumping"), "{out}");
}

#[test]
fn reports_when_the_list_shape_breaks_parsing() {
    let wrapped = r#"{"opModes":[{"name":"A","flavor":"TELEOP"}]}"#;
    let frames = vec![
        ethernet(&udp_packet(RC, DS, &Telemetry::default().serialize())),
        ethernet(&udp_packet(RC, DS, &Command::new("CMD_NOTIFY_OP_MODE_LIST", wrapped, 1).serialize())),
    ];
    let out = run(&frames, false);
    assert!(out.contains("not a JSON array"), "{out}");
}

#[test]
fn report_of_a_quiet_capture() {
    let frames = vec![ethernet(&udp_packet(DS, RC, &PeerDiscovery::default().serialize()))];
    let out = run(&frames, false);
    let expected = [
        "192.168.43.100:20884->192.168.43.1:20884  peer-discovery robocol=124 sdk=11.2 build=7/2026 type=Peer",
        "",
        "=== capture ===",
        "1 frames, 1 Robocol packets (0 reassembled from IP fragments), 0 non-IP/unsupported frames",
        "Robot Controller NOT inferred (no telemetry seen) — directions shown as endpoints",
        "",
        "=== peer discovery (advertised versions) ===",
        "  192.168.43.100:20884->192.168.43.1:20884 robocol=124 sdk=11.2 build=7/2026 type=Peer  x1",
        "  we advertise: robocol=124 sdk=11.2 build=7/2026  <- peer_discovery.rs, hardcoded",
        "",
        "=== commands ===",
        "  none seen",
        "",
        "=== opmodes ===",
        "  no CMD_NOTIFY_OP_MODE_LIST seen — did you run `opmodes` in ds_cli?",
        "",
        "=== action items ===",
        "  none — nothing in this capture is unknown to the current crate.",
    ]
    .join("\n");
    assert_eq!(out, expected);
}

#[test]
fn listing_lines() {
    let frames = vec![
        ethernet(&udp_packet(RC, DS, &Telemetry::default().serialize())),
        ethernet(&udp_packet(DS, RC, &Command::new("CMD_INIT_OP_MODE", "Duo\r\n(TeleOp)", 7).serialize())),
        ethernet(&udp_packet(RC, DS, &[9u8, 0, 1])),
    ];
    let out = run(&frames, true);
    let lines: Vec<&str> = out.lines().collect();
    assert_eq!(lines[0], "RC->DS  telemetry #0 state=Unknown tag=\"\" 0 strings 0 numbers");
    assert_eq!(lines[1], "DS->RC  cmd CMD_INIT_OP_MODE #0: Duo\\n(TeleOp)");
    assert_eq!(lines[2], "RC->DS  !! undecodable (unknown packet type 9), 3 bytes: 09 00 01");
    assert!(out.contains("Packets the wire codecs rejected: unknown packet type 9 x1"), "{out}");
    assert!(out.contains("  1. "), "{out}");
}

#[test]
fn ipv6_endpoints_are_compressed() {
    let d = Datagram {
        ts: Timestamp::Split { sec: 0, frac: 0, nanos: false },
        src: Ip::V6(0x2001_0db8_0000_0000_0000_0000_0000_0001),
        dst: Ip::V6(0x0000_0000_0000_0000_0000_ffff_c0a8_2b01),
        sport: 1,
        dport: 2,
        payload: robocol::packets::KeepAlive { seq: 0, id: 0 }.serialize(),
        fragmented: true,
    };
    let parsed = Packet::parse(&d.payload);
    assert_eq!(
        format_line(&d, &parsed, &[], 0, true).unwrap(),
        "2001:db8::1:1->::ffff:192.168.43.1:2  keep-alive [reassembled]"
    );
}

#[test]
fn object_fields_of_an_opmode_list() {
    let items = opmode_object_fields(r#"[{"name":"A","n":1},"x"]"#).unwrap();
    assert_eq!(items.len(), 2);
    assert_eq!(items[0], Some(vec![("n".to_string(), "1".to_string()), ("name".to_string(), "\"A\"".to_string())]));
    assert_eq!(items[1], None);
    assert!(opmode_object_fields(r#"{"opModes":[]}"#).is_none());
}

#[test]
fn robocol_datagrams_by_port_or_by_parse() {
    let mk = |sport: u16, payload: Vec<u8>| Datagram {
        ts: Timestamp::Split { sec: 0, frac: 0, nanos: false },
        src: Ip::V4(1),
        dst: Ip::V4(2),
        sport,
        dport: 9,
        payload,
        fragmented: false,
    };
    let ka = robocol::packets::KeepAlive { seq: 0, id: 0 }.serialize();
    let ds = vec![mk(PORT, vec![1, 2]), mk(7, ka.clone()), mk(7, vec![0xee])];
    let by_port = robocol_datagrams(&ds, PORT);
    assert_eq!(by_port.len(), 1);
    assert_eq!(by_port[0].payload, vec![1, 2]);
    let by_parse = robocol_datagrams(&ds, 0);
    assert_eq!(by_parse.len(), 1);
    assert_eq!(by_parse[0].payload, ka);
}
