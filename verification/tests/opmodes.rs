use robocol::cmd::{opmodes_from_names, parse_opmode_list, OpModeMeta};

/// The object form of an OpMode list, read the way the application layer
/// reads it: an array of objects with a string `name` and optional string
/// `flavor` and `group`.
fn object_form(extra: &str) -> Option<Vec<OpModeMeta>> {
    let value: serde_json::Value = serde_json::from_str(extra).ok()?;
    let mut out = Vec::new();
    for item in value.as_array()? {
        let obj = item.as_object()?;
        let field = |key: &str| -> Option<String> {
            match obj.get(key) {
                None => Some(String::new()),
                Some(v) => v.as_str().map(str::to_string),
            }
        };
        let name = obj.get("name")?.as_str()?.to_string();
        out.push(OpModeMeta {
            name,
            flavor: field("flavor")?,
            group: field("group")?,
        });
    }
    Some(out)
}

fn parse(extra: &str) -> Vec<OpModeMeta> {
    parse_opmode_list(object_form(extra), extra)
}

#[test]
fn parses_object_form() {
    let extra = r#"[{"name":"Duo","flavor":"TELEOP","group":"drive"},{"name":"Auto"}]"#;
    let list = parse(extra);
    assert_eq!(list.len(), 2);
    assert_eq!(list[0].name, "Duo");
    assert_eq!(list[0].flavor, "TELEOP");
    assert_eq!(list[1].group, "");
}

#[test]
fn parses_string_array_form() {
    let list = parse(r#"["Duo","Solo"]"#);
    assert_eq!(list.len(), 2);
    assert_eq!(list[1].name, "Solo");
}

#[test]
fn garbage_yields_empty() {
    assert!(parse("not json").is_empty());
}

#[test]
fn names_become_bare_entries() {
    let list = opmodes_from_names(Some(vec!["A".to_string(), "B".to_string()]));
    assert_eq!(
        list,
        vec![
            OpModeMeta { name: "A".into(), flavor: String::new(), group: String::new() },
            OpModeMeta { name: "B".into(), flavor: String::new(), group: String::new() },
        ]
    );
    assert!(opmodes_from_names(None).is_empty());
}

#[test]
fn object_form_wins_over_names() {
    let objects = vec![OpModeMeta { name: "X".into(), flavor: "AUTONOMOUS".into(), group: "g".into() }];
    assert_eq!(parse_opmode_list(Some(objects.clone()), r#"["Y"]"#), objects);
    // A string array is read with escapes resolved.
    let list = parse_opmode_list(None, r#"["a\"b", "\u00e9"]"#);
    assert_eq!(list[0].name, "a\"b");
    assert_eq!(list[1].name, "é");
}
