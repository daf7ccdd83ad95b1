use mini_wallpaper::smart_rule::{
    date_value, default_version, WallpaperFacts, Combinator, Field, JsonNumber, JsonValue, NumColumn, Orientation,
    RuleCondition, RuleError, RuleIssue, RuleItem, SmartRule, TagMatch,
};

fn to_value(v: &serde_json::Value) -> JsonValue {
    match v {
        serde_json::Value::Null => JsonValue::Null,
        serde_json::Value::Bool(b) => JsonValue::Bool(*b),
        serde_json::Value::Number(n) => {
            if let Some(u) = n.as_u64() {
                JsonValue::Number(JsonNumber::PosInt(u))
            } else if let Some(i) = n.as_i64() {
                JsonValue::Number(JsonNumber::NegInt(i))
            } else {
                JsonValue::Number(JsonNumber::Float)
            }
        }
        serde_json::Value::String(s) => JsonValue::Str(s.clone()),
        serde_json::Value::Array(a) => JsonValue::Array(a.iter().map(to_value).collect()),
        serde_json::Value::Object(o) => {
            JsonValue::Object(o.iter().map(|(k, v)| (k.clone(), to_value(v))).collect())
        }
    }
}

fn parse_rule(json: &str) -> Result<SmartRule, String> {
    let v: serde_json::Value = serde_json::from_str(json).map_err(|e| e.to_string())?;
    let obj = v.as_object().ok_or("not an object")?;
    let version = match obj.get("version") {
        Some(x) => x.as_u64().ok_or("bad version")? as u32,
        None => default_version(),
    };
    let combinator = match obj.get("combinator").and_then(|c| c.as_str()) {
        Some("and") => Combinator::And,
        Some("or") => Combinator::Or,
        _ => return Err("bad combinator".to_string()),
    };
    let mut rules = Vec::new();
    for item in obj.get("rules").and_then(|r| r.as_array()).ok_or("missing rules")? {
        let field = item.get("field").and_then(|f| f.as_str()).ok_or("missing field")?;
        let op = item.get("op").and_then(|f| f.as_str()).ok_or("missing op")?;
        let value = item.get("value").ok_or("missing value")?;
        rules.push(RuleItem { field: field.to_string(), op: op.to_string(), value: to_value(value) });
    }
    Ok(SmartRule { version, combinator, rules })
}

fn parse_and_validate(json: &str) -> Result<SmartRule, String> {
    let rule = parse_rule(json)?;
    rule.validate().map_err(|e| format!("{:?}", e))?;
    Ok(rule)
}

fn item(field: &str, op: &str, value: JsonValue) -> RuleItem {
    RuleItem { field: field.to_string(), op: op.to_string(), value }
}

fn num(n: u64) -> JsonValue {
    JsonValue::Number(JsonNumber::PosInt(n))
}

fn text(s: &str) -> JsonValue {
    JsonValue::Str(s.to_string())
}

fn issue_of(i: RuleItem) -> Option<RuleIssue> {
    i.validate().err()
}

#[test]
fn rejects_empty_rules() {
    let json = r#"{"combinator":"and","rules":[]}"#;
    assert!(parse_and_validate(json).is_err());
}

#[test]
fn rejects_unknown_field() {
    let json = r#"{"combinator":"and","rules":[{"field":"evil","op":"eq","value":1}]}"#;
    assert!(parse_and_validate(json).is_err());
}

#[test]
fn rejects_bad_op_for_field() {
    let json = r#"{"combinator":"and","rules":[{"field":"type","op":"gte","value":"image"}]}"#;
    assert!(parse_and_validate(json).is_err());
}

#[test]
fn accepts_valid_composite_rule() {
    let json = r#"{
        "version":1,
        "combinator":"and",
        "rules":[
            {"field":"tag","op":"includes_any","value":[1,2]},
            {"field":"width","op":"gte","value":3840},
            {"field":"type","op":"eq","value":"image"},
            {"field":"created_at","op":"within_days","value":7},
            {"field":"file_size","op":"lte","value":10485760},
            {"field":"orientation","op":"eq","value":"landscape"}
        ]
    }"#;
    let rule = parse_and_validate(json).expect("should be valid");
    assert!(rule.build_condition().is_ok());
}

#[test]
fn rejects_between_reversed() {
    let json = r#"{"combinator":"and","rules":[{"field":"width","op":"between","value":[3840,1920]}]}"#;
    assert!(parse_and_validate(json).is_err());
}

#[test]
fn empty_rule_reports_no_rules() {
    let rule = SmartRule { version: 1, combinator: Combinator::Or, rules: vec![] };
    assert_eq!(rule.validate(), Err(RuleError::NoRules));
}

#[test]
fn invalid_item_is_reported_by_one_based_index() {
    let rule = SmartRule {
        version: 1,
        combinator: Combinator::And,
        rules: vec![
            item("width", "gte", num(100)),
            item("height", "lte", num(100)),
            item("type", "eq", text("sound")),
            item("evil", "eq", num(1)),
        ],
    };
    assert_eq!(
        rule.validate(),
        Err(RuleError::InvalidItem { index: 3, issue: RuleIssue::NotAllowed })
    );
    assert_eq!(rule.build_condition().err(), Some(RuleIssue::NotAllowed));
}

#[test]
fn field_names_are_whitelisted() {
    assert_eq!(Field::parse("tag"), Some(Field::Tag));
    assert_eq!(Field::parse("created_at"), Some(Field::CreatedAt));
    assert_eq!(Field::parse("file_size"), Some(Field::FileSize));
    assert_eq!(Field::parse("Width"), None);
    assert_eq!(Field::parse("name"), None);
}

#[test]
fn each_issue_has_an_input() {
    assert_eq!(issue_of(item("evil", "eq", num(1))), Some(RuleIssue::UnknownField));
    assert_eq!(issue_of(item("type", "gte", text("image"))), Some(RuleIssue::UnsupportedOp));
    assert_eq!(issue_of(item("tag", "includes_any", num(1))), Some(RuleIssue::NotAnArray));
    assert_eq!(
        issue_of(item("tag", "includes_any", JsonValue::Array(vec![num(1), text("x")]))),
        Some(RuleIssue::NotAnInteger)
    );
    assert_eq!(
        issue_of(item("tag", "includes_any", JsonValue::Array(vec![num(3_000_000_000)]))),
        Some(RuleIssue::OutOfRange)
    );
    assert_eq!(
        issue_of(item("tag", "includes_all", JsonValue::Array(vec![]))),
        Some(RuleIssue::EmptyTagList)
    );
    assert_eq!(issue_of(item("type", "eq", num(1))), Some(RuleIssue::NotAString));
    assert_eq!(issue_of(item("orientation", "eq", text("round"))), Some(RuleIssue::NotAllowed));
    assert_eq!(
        issue_of(item("width", "between", JsonValue::Array(vec![num(1)]))),
        Some(RuleIssue::WrongArity)
    );
    assert_eq!(
        issue_of(item("height", "between", JsonValue::Array(vec![num(9), num(2)]))),
        Some(RuleIssue::ReversedRange)
    );
    assert_eq!(issue_of(item("created_at", "before", text("2024-13-40"))), Some(RuleIssue::BadDate));
    assert_eq!(issue_of(item("created_at", "before", text("yesterday"))), Some(RuleIssue::BadDate));
    assert_eq!(
        issue_of(item("created_at", "within_days", JsonValue::Number(JsonNumber::NegInt(-3)))),
        Some(RuleIssue::NotPositive)
    );
    assert_eq!(issue_of(item("created_at", "within_days", num(0))), Some(RuleIssue::NotPositive));
    assert_eq!(issue_of(item("file_size", "between", JsonValue::Array(vec![num(1), num(2)]))), Some(RuleIssue::UnsupportedOp));
    assert_eq!(issue_of(item("width", "gte", JsonValue::Number(JsonNumber::Float))), Some(RuleIssue::NotAnInteger));
}

#[test]
fn items_compile_to_their_conditions() {
    match item("tag", "excludes", JsonValue::Array(vec![num(4), num(5)])).build_condition() {
        Ok(RuleCondition::Tags { mode, ids }) => {
            assert_eq!(mode, TagMatch::Excluded);
            assert_eq!(ids, vec![4, 5]);
        }
        other => panic!("unexpected {:?}", other),
    }
    match item("width", "between", JsonValue::Array(vec![num(1920), num(3840)])).build_condition() {
        Ok(RuleCondition::Between(col, lo, hi)) => {
            assert_eq!(col, NumColumn::Width);
            assert_eq!((lo, hi), (1920, 3840));
        }
        other => panic!("unexpected {:?}", other),
    }
    match item("orientation", "eq", text("portrait")).build_condition() {
        Ok(RuleCondition::Shape(o)) => assert_eq!(o, Orientation::Portrait),
        other => panic!("unexpected {:?}", other),
    }
    match item("type", "neq", text("video")).build_condition() {
        Ok(RuleCondition::TypeNe(t)) => assert_eq!(t, "video"),
        other => panic!("unexpected {:?}", other),
    }
    match item("created_at", "within_days", num(7)).build_condition() {
        Ok(RuleCondition::CreatedWithinDays(d)) => assert_eq!(d, 7),
        other => panic!("unexpected {:?}", other),
    }
    match item("created_at", "after", text("2024-02-29")).build_condition() {
        Ok(RuleCondition::CreatedAfter(d)) => assert_eq!(d, "2024-02-29"),
        other => panic!("unexpected {:?}", other),
    }
    match item("created_at", "before", text("2023-01-31")).build_condition() {
        Ok(RuleCondition::CreatedBefore(d)) => assert_eq!(d, "2023-01-31"),
        other => panic!("unexpected {:?}", other),
    }
    match item("file_size", "gte", num(1024)).build_condition() {
        Ok(RuleCondition::AtLeast(col, n)) => {
            assert_eq!(col, NumColumn::FileSize);
            assert_eq!(n, 1024);
        }
        other => panic!("unexpected {:?}", other),
    }
}

#[test]
fn compiled_rule_keeps_combinator_and_order() {
    let rule = SmartRule {
        version: default_version(),
        combinator: Combinator::Or,
        rules: vec![item("height", "gte", num(1080)), item("type", "eq", text("gif"))],
    };
    assert_eq!(rule.validate(), Ok(()));
    let compiled = rule.build_condition().expect("valid rule");
    assert_eq!(compiled.combinator, Combinator::Or);
    assert_eq!(compiled.conditions.len(), 2);
    assert!(matches!(compiled.conditions[0], RuleCondition::AtLeast(NumColumn::Height, 1080)));
    assert!(matches!(&compiled.conditions[1], RuleCondition::TypeEq(t) if t == "gif"));
}

#[test]
fn leap_day_only_in_leap_years() {
    assert!(item("created_at", "before", text("2024-02-29")).validate().is_ok());
    assert_eq!(issue_of(item("created_at", "before", text("2023-02-29"))), Some(RuleIssue::BadDate));
}

#[test]
fn default_version_is_one() {
    assert_eq!(default_version(), 1);
}

#[test]
fn date_values_follow_the_parser_verdict() {
    assert_eq!(date_value(&text("2024-05-01"), true), Ok("2024-05-01".to_string()));
    assert_eq!(date_value(&text("2024-05-01"), false), Err(RuleIssue::BadDate));
    assert_eq!(date_value(&num(20240501), true), Err(RuleIssue::NotAString));
}

fn facts(media: &str, w: Option<i64>, h: Option<i64>, size: i64, created: &str, tags: Vec<i32>) -> WallpaperFacts {
    WallpaperFacts {
        media_type: media.to_string(),
        width: w,
        height: h,
        file_size: size,
        created_at: created.to_string(),
        tags,
    }
}

#[test]
fn tag_conditions_select_any_all_or_none() {
    let f = facts("image", Some(1920), Some(1080), 100, "2024-03-01 10:00:00", vec![1, 3]);
    let t = "2024-02-01 00:00:00";
    let any = item("tag", "includes_any", JsonValue::Array(vec![num(2), num(3)])).build_condition().unwrap();
    let all = item("tag", "includes_all", JsonValue::Array(vec![num(1), num(2)])).build_condition().unwrap();
    let none = item("tag", "excludes", JsonValue::Array(vec![num(2), num(4)])).build_condition().unwrap();
    let none_hit = item("tag", "excludes", JsonValue::Array(vec![num(3)])).build_condition().unwrap();
    assert!(any.selects(&f, t));
    assert!(!all.selects(&f, t));
    assert!(none.selects(&f, t));
    assert!(!none_hit.selects(&f, t));
}

#[test]
fn other_conditions_select_by_columns() {
    let f = facts("video", None, None, 5000, "2024-03-01 10:00:00", vec![]);
    let g = facts("image", Some(1080), Some(1920), 200, "2023-12-31 23:00:00", vec![]);
    let t = "2024-02-01 00:00:00";
    let sel = |i: RuleItem, x: &WallpaperFacts| i.build_condition().unwrap().selects(x, t);
    assert!(sel(item("type", "eq", text("video")), &f));
    assert!(!sel(item("type", "neq", text("video")), &f));
    assert!(!sel(item("width", "gte", num(1)), &f));
    assert!(sel(item("width", "between", JsonValue::Array(vec![num(1000), num(1080)])), &g));
    assert!(sel(item("file_size", "gte", num(5000)), &f));
    assert!(!sel(item("file_size", "lte", num(4999)), &f));
    assert!(sel(item("orientation", "eq", text("portrait")), &g));
    assert!(!sel(item("orientation", "eq", text("portrait")), &f));
    assert!(sel(item("created_at", "within_days", num(30)), &f));
    assert!(!sel(item("created_at", "within_days", num(30)), &g));
    assert!(sel(item("created_at", "before", text("2024-01-01")), &g));
    assert!(sel(item("created_at", "after", text("2024-03-01")), &f));
}

#[test]
fn combinators_combine() {
    let f = facts("image", Some(800), Some(600), 10, "2024-03-01 10:00:00", vec![]);
    let rule = |c: Combinator| SmartRule {
        version: 1,
        combinator: c,
        rules: vec![item("type", "eq", text("image")), item("width", "gte", num(1920))],
    };
    assert!(!rule(Combinator::And).build_condition().unwrap().selects(&f, ""));
    assert!(rule(Combinator::Or).build_condition().unwrap().selects(&f, ""));
}
