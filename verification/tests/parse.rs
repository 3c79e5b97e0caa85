//! Reading podman's answers.

use steelbx::driver::parse::{
    box_marker_from_inspect, cmd_label_from_image_inspect, env_names_from_inspect,
    env_names_from_label, image_refs_from_images_json, name_label_from_image_inspect,
    ps_rows_from_json, state_from_inspect, workdir_from_image_inspect,
};
use steelbx::json::{parse_json, Json};

fn json(s: &str) -> Json {
    parse_json(s.as_bytes()).unwrap()
}

#[test]
fn image_inspect_workdir_shape_is_pinned() {
    let v = json(r#"[{"Config":{"WorkingDir":"/root/.pi"}}]"#);
    assert_eq!(workdir_from_image_inspect(&v).as_deref(), Some("/root/.pi"));

    let v = json(r#"[{"Config":{}}]"#);
    assert_eq!(workdir_from_image_inspect(&v), None);
    let v = json(r#"[{"Config":{"WorkingDir":""}}]"#);
    assert_eq!(workdir_from_image_inspect(&v), None);
}

#[test]
fn inspect_json_marker_shape_is_pinned() {
    let v = json(
        r#"[{"Config":{"Labels":{"com.github.simon3z.steelbx.box":"true","com.github.simon3z.steelbx.box.name":"pi"}},"Name":"pi-1"}]"#,
    );
    assert_eq!(box_marker_from_inspect(&v).as_deref(), Some("true"));

    let v = json(r#"[{"Config":{"Labels":{}}}]"#);
    assert_eq!(box_marker_from_inspect(&v), None);
}

#[test]
fn image_declared_cmd_label_is_pinned() {
    let v = json(r#"[{"Config":{"Labels":{"com.github.simon3z.steelbx.box.cmd":"true"}}}]"#);
    assert!(cmd_label_from_image_inspect(&v));
    let v = json(r#"[{"Config":{"Labels":{"com.github.simon3z.steelbx.box.cmd":""}}}]"#);
    assert!(cmd_label_from_image_inspect(&v));
    let v = json(r#"[{"Config":{"Labels":{}}}]"#);
    assert!(!cmd_label_from_image_inspect(&v));
}

#[test]
fn image_declared_name_is_pinned() {
    let v = json(
        r#"[{"Config":{"Labels":{"com.github.simon3z.steelbx.box":"true","com.github.simon3z.steelbx.box.name":"pi"},"WorkingDir":"/root"}}]"#,
    );
    assert_eq!(name_label_from_image_inspect(&v).as_deref(), Some("pi"));
    assert_eq!(workdir_from_image_inspect(&v).as_deref(), Some("/root"));

    let v = json(r#"[{"Config":{"Labels":{"com.github.simon3z.steelbx.box":"true"}}}]"#);
    assert_eq!(name_label_from_image_inspect(&v), None);
    let v = json(r#"[{"Config":{"Labels":{"com.github.simon3z.steelbx.box.name":""}}}]"#);
    assert_eq!(name_label_from_image_inspect(&v), None);
}

#[test]
fn env_names_label_is_pinned() {
    let v = json(
        r#"[{"Config":{"Labels":{"com.github.simon3z.steelbx.box.env":"A, B ,bad-name,,C"}}}]"#,
    );
    assert_eq!(
        env_names_from_inspect(&v),
        vec!["A".to_string(), "B".to_string(), "C".to_string()]
    );
    let v = json(r#"[{"Config":{"Labels":{}}}]"#);
    assert_eq!(env_names_from_inspect(&v), Vec::<String>::new());
    let v = json(r#"[{"Config":{"Labels":{"com.github.simon3z.steelbx.box.env":""}}}]"#);
    assert_eq!(env_names_from_inspect(&v), Vec::<String>::new());
}

#[test]
fn ps_json_shape_is_pinned() {
    let v = json(
        r#"[{"Names":["pi-1"],"State":"created","Image":"quay.io/fedora-toolbox:44","CreatedAt":"8 hours ago","Labels":{"com.github.simon3z.steelbx.box":"true"}},{"Names":["pi-2"],"State":"running"}]"#,
    );
    let rows = ps_rows_from_json(&v);
    assert_eq!(rows.len(), 1);
    assert_eq!(rows[0].name, "pi-1");
    assert_eq!(rows[0].state, "created");
    assert_eq!(rows[0].image, "quay.io/fedora-toolbox:44");
    assert_eq!(rows[0].created, "8 hours ago");

    let v = json(
        r#"[{"Names":["pi-4"],"State":"created","Labels":{"com.github.simon3z.steelbx.box":""}}]"#,
    );
    assert_eq!(ps_rows_from_json(&v).len(), 1);

    let v = json(
        r#"[{"Name":"pi-3","State":"created","Labels":{"com.github.simon3z.steelbx.box":"true"}}]"#,
    );
    assert_eq!(ps_rows_from_json(&v).len(), 1);
}

#[test]
fn images_json_refs_shape_is_pinned() {
    let v = json(
        r#"[{"repoTags":["registry.fedoraproject.org/fedora:42"]},{"repoTags":["mybox:<none>"]},{"repoTags":["registry.fedoraproject.org/fedora:42","registry.fedoraproject.org/fedora:latest"]}]"#,
    );
    assert_eq!(
        image_refs_from_images_json(&v),
        vec![
            "registry.fedoraproject.org/fedora:42",
            "registry.fedoraproject.org/fedora:latest"
        ]
    );
}

#[test]
fn images_json_refs_fallback_shapes() {
    let v = json(r#"[{"Names":["a/b:1"]}]"#);
    assert_eq!(image_refs_from_images_json(&v), vec!["a/b:1"]);
    let v = json(r#"[{"repository":"e/f","tag":"3"}]"#);
    assert_eq!(image_refs_from_images_json(&v), vec!["e/f:3"]);
    let v = json(r#"[{"repository":"<none>","tag":"<none>"}]"#);
    assert_eq!(image_refs_from_images_json(&v), Vec::<String>::new());
}

#[test]
fn the_first_key_with_references_wins() {
    let v = json(
        r#"[{"repoTags":["x:<none>",""],"Names":["a:1",7,"b:2"],"Tags":["c:3"],"repository":"r","tag":"t"}]"#,
    );
    assert_eq!(image_refs_from_images_json(&v), vec!["a:1", "b:2"]);
    let v = json(r#"[{"repoTags":["a:1"],"repository":"b","tag":"2"}]"#);
    assert_eq!(image_refs_from_images_json(&v), vec!["a:1"]);
    // The repository and the tag are for images that no key has.
    let v = json(r#"[{"repoTags":["a:<none>"],"repository":"b","tag":"2"}]"#);
    assert_eq!(image_refs_from_images_json(&v), vec!["b:2"]);
}

#[test]
fn references_without_a_tag_are_not_listed() {
    for c in [
        r#"{"repository":"b","tag":"<none>"}"#,
        r#"{"repository":"b","tag":""}"#,
        r#"{"repository":"b","tag":"x:<none>"}"#,
        r#"{"repository":"b:<none>","tag":"1"}"#,
        r#"{"repository":"b"}"#,
        r#"{"Names":["b:<none>",""]}"#,
    ] {
        let v = json(&format!("[{c}]"));
        assert!(image_refs_from_images_json(&v).is_empty(), "{c}");
    }
}

#[test]
fn a_marker_counts_whatever_its_value() {
    for (value, text) in [(r#""""#, ""), ("null", ""), ("true", ""), (r#""no""#, "no")] {
        let v = json(&format!(
            r#"[{{"Config":{{"Labels":{{"com.github.simon3z.steelbx.box":{value}}}}}}}]"#
        ));
        assert_eq!(box_marker_from_inspect(&v).as_deref(), Some(text), "{value}");
    }
}

#[test]
fn json_values_are_read_level_by_level() {
    let v = json(r#"{"a":[null,true,1.5,"s",{"b":"é"}],"z":{}}"#);
    let list = v.get("a").unwrap();
    assert_eq!(list.len(), 5);
    assert!(matches!(list.at(0), Some(Json::Null)));
    assert!(matches!(list.at(1), Some(Json::Bool(true))));
    assert!(matches!(list.at(2), Some(Json::Number)));
    assert_eq!(list.at(3).unwrap().as_str().map(String::as_str), Some("s"));
    assert_eq!(
        list.at(4).unwrap().get("b").unwrap().as_str().map(String::as_str),
        Some("é")
    );
    assert!(list.at(5).is_none());
    assert!(v.get("b").is_none());
    assert!(v.at(0).is_none());
    assert!(v.as_str().is_none());
    assert!(list.get("a").is_none());
    assert_eq!(v.len(), 0);
}

#[test]
fn bytes_that_are_no_json_are_an_error_that_says_why() {
    for bad in ["", "{", "[1,]", "nul", "{} {}", "\"\\x\""] {
        let why = serde_json::from_str::<serde_json::Value>(bad).unwrap_err().to_string();
        assert_eq!(parse_json(bad.as_bytes()).unwrap_err().message, why, "{bad:?}");
    }
    assert_eq!(
        parse_json(b"{").unwrap_err().message,
        "EOF while parsing an object at line 1 column 1"
    );
    assert!(parse_json(&[0x22, 0xff, 0x22]).is_err());
}

#[test]
fn a_repeated_member_is_the_last_one() {
    let v = json(r#"{"a":"1","a":"2"}"#);
    assert_eq!(v.get("a").unwrap().as_str().map(String::as_str), Some("2"));
}

#[test]
fn absent_parts_are_absent() {
    for s in ["[]", "{}", "null", "[1]", r#"[{"Config":7,"State":[]}]"#] {
        let v = json(s);
        assert_eq!(box_marker_from_inspect(&v), None);
        assert_eq!(workdir_from_image_inspect(&v), None);
        assert_eq!(name_label_from_image_inspect(&v), None);
        assert!(!cmd_label_from_image_inspect(&v));
        assert!(env_names_from_inspect(&v).is_empty());
        assert_eq!(state_from_inspect(&v), None);
        assert!(ps_rows_from_json(&v).is_empty());
        assert!(image_refs_from_images_json(&v).is_empty());
    }
    let v = json(r#"[{"State":{"Status":"running"}}]"#);
    assert_eq!(state_from_inspect(&v).as_deref(), Some("running"));
}

#[test]
fn a_label_reads_back_the_names_it_was_made_of() {
    for names in [vec![], vec!["A"], vec!["A", "B_2", "c"]] {
        assert_eq!(env_names_from_label(&names.join(",")), names);
    }
}

#[test]
fn a_list_row_needs_a_name_and_the_marker() {
    let v = json(
        r#"[{"Labels":{"com.github.simon3z.steelbx.box":"true"}},{"Names":[],"Name":"n","Labels":{"com.github.simon3z.steelbx.box":null}},{"Name":"m","Labels":null}]"#,
    );
    let rows = ps_rows_from_json(&v);
    assert_eq!(rows.len(), 1);
    assert_eq!(rows[0].name, "n");
    assert_eq!(rows[0].state, "");
    assert_eq!(rows[0].image, "");
    assert_eq!(rows[0].created, "");
}
