use wisdom::{
    DynamicBindString, DynamicCallbackString, HalfCompiledDynamicString, ReplacedRefsDsc,
    SectionedStrings, SetData,
};

#[test]
fn escaped_dollar_becomes_single_dollar() {
    let r = ReplacedRefsDsc::try_new("a$$b", "a$$b", None).unwrap();
    assert_eq!(r.replaced_dsc, "a$b");
    assert!(r.referenced_subs.is_empty());
    assert_eq!(r.mutated_state, None);
    assert!(!r.has_comment);
}

#[test]
fn plain_code_is_unchanged() {
    let r = ReplacedRefsDsc::try_new("x * (y + 2) - \"z\";", "line", Some("m".to_string())).unwrap();
    assert_eq!(r.replaced_dsc, "x * (y + 2) - \"z\";");
    assert!(r.referenced_subs.is_empty());
    assert_eq!(r.mutated_state, Some("m".to_string()));
    assert!(!r.has_comment);
}

#[test]
fn runes_are_replaced() {
    let r = ReplacedRefsDsc::try_new("$>count + $other * $<sub + $<sub", "l", None).unwrap();
    assert_eq!(
        r.replaced_dsc,
        "count + State.snapshot(slf.states.other) * $<sub + $<sub"
    );
    assert_eq!(r.referenced_subs, vec!["sub".to_string()]);
    assert_eq!(r.mutated_state, Some("count".to_string()));
}

#[test]
fn state_names_may_hold_digits() {
    let r = ReplacedRefsDsc::try_new("$a1_b2+1", "l", None).unwrap();
    assert_eq!(r.replaced_dsc, "State.snapshot(slf.states.a1_b2)+1");
}

#[test]
fn comment_stops_replacement() {
    let r = ReplacedRefsDsc::try_new("x // $y", "l", None).unwrap();
    assert_eq!(r.replaced_dsc, "x // $y");
    assert!(r.has_comment);
}

#[test]
fn rune_errors() {
    let e = ReplacedRefsDsc::try_new("x $", "L", None).err().unwrap();
    assert_eq!(e.msg(), "unknown rune '$\"' found in `L`");
    let e = ReplacedRefsDsc::try_new("$ x", "L", None).err().unwrap();
    assert_eq!(e.msg(), "floating '$' found in `L`");
    let e = ReplacedRefsDsc::try_new("$#", "L", None).err().unwrap();
    assert_eq!(e.msg(), "unknown rune '$#' found in `L`");
    let e = ReplacedRefsDsc::try_new("$< x", "L", None).err().unwrap();
    assert_eq!(e.msg(), "floating rune found in `L`");
    let e = ReplacedRefsDsc::try_new("$>a + $>b", "L", None).err().unwrap();
    assert_eq!(e.msg(), "more than one mutated state found in `L`");
    let e = ReplacedRefsDsc::try_new("$>b", "L", Some("a".to_string())).err().unwrap();
    assert_eq!(e.msg(), "more than one mutated state found in `L`");
}

#[test]
fn sections_of_a_line() {
    let s = SectionedStrings::new("\"a\\\"b\" + x + \"c\"");
    assert_eq!(s.strings, vec!["\"a\\\"b\"".to_string(), "\"c\"".to_string()]);
    assert_eq!(s.dscs, vec![" + x + ".to_string()]);
    assert!(s.is_strings_first);

    let s = SectionedStrings::new("x = \"hi\";");
    assert_eq!(s.strings, vec!["\"hi\"".to_string()]);
    assert_eq!(s.dscs, vec!["x = ".to_string(), ";".to_string()]);
    assert!(!s.is_strings_first);

    // A literal needs at least one character before its closing quotation mark.
    let s = SectionedStrings::new("x = \"\" + y");
    assert!(s.strings.is_empty());
    assert_eq!(s.dscs, vec!["x = \"\" + y".to_string()]);
}

#[test]
fn sections_round_trip() {
    let line = "say(\"a $b\") + $c + \"d\\\\\" + e";
    let s = SectionedStrings::new(line);
    let mut rebuilt = String::new();
    let (first, second) = if s.is_strings_first { (&s.strings, &s.dscs) } else { (&s.dscs, &s.strings) };
    for i in 0..first.len().max(second.len()) {
        if i < first.len() {
            rebuilt.push_str(&first[i]);
        }
        if i < second.len() {
            rebuilt.push_str(&second[i]);
        }
    }
    assert_eq!(rebuilt, line);
}

#[test]
fn half_compiled_lines() {
    let h = HalfCompiledDynamicString::from_src("bind\n$>x: $<a\n\"s\" + $<b + $<a", true).unwrap();
    assert_eq!(h.line_sections.len(), 2);
    assert_eq!(h.line_sections[0].0, Some("x".to_string()));
    assert_eq!(h.line_sections[0].1.dscs, vec!["$<a".to_string()]);
    assert_eq!(h.line_sections[1].0, None);
    assert!(h.line_sections[1].1.is_strings_first);
    assert_eq!(h.referenced_subs, vec!["a".to_string(), "b".to_string()]);
}

#[test]
fn callback_refuses_subscriptions() {
    let d = DynamicCallbackString::try_from("callback\nx = $<a;".to_string()).unwrap();
    let e = d.compile("f").unwrap_err();
    assert_eq!(e.msg(), "state subscription rune $< found in dynamic callback string `x = $<a;`");
}

#[test]
fn headers_are_checked() {
    assert_eq!(DynamicCallbackString::try_from("bind\nx".to_string()).err(), Some(true));
    assert_eq!(DynamicBindString::try_from("callback\nx".to_string()).err(), Some(true));
    let d = DynamicCallbackString::try_from("callback\r\nx".to_string()).unwrap();
    assert_eq!(d.source(), "callback\r\nx");
    let b = DynamicBindString::try_from("bind".to_string()).unwrap();
    assert_eq!(b.source(), "bind");
    assert_eq!(String::from(b), "bind");
}

#[test]
fn callback_with_parameters_and_lines() {
    let d = DynamicCallbackString::from_source("callback\na();\n  b();".to_string())
        .with_params(vec!["x".to_string(), "y".to_string()]);
    assert_eq!(d.compile("f").unwrap(), "f = (x, y) => {\n    a();\n      b();\n}");
}

#[test]
fn binding_keys_are_distinct() {
    let b = DynamicBindString::try_from("bind\n$<a + $<a + $<b".to_string()).unwrap();
    let entries = b.compile(SetData::Function("g".to_string())).unwrap();
    let keys: Vec<&str> = entries.iter().map(|e| e.0.as_str()).collect();
    assert_eq!(keys, vec!["a", "b", ""]);
    assert_eq!(entries[0].1, "g(a + a + State.snapshot(slf.states.b));");
    assert_eq!(entries[2].1, "g(State.snapshot(slf.states.a) + State.snapshot(slf.states.a) + State.snapshot(slf.states.b));");
}

#[test]
fn binding_as_value() {
    let b = DynamicBindString::try_from("bind\nlet x = 1;\nreturn x;".to_string()).unwrap();
    let entries = b.compile(SetData::Value).unwrap();
    assert_eq!(entries, vec![("".to_string(), "(() => {\n    let x = 1;\n    return x;\n})()".to_string())]);
}

#[test]
fn binding_of_a_longer_name_is_kept_apart() {
    // Replacing `$<count` also touches `$<counter`, as the text replacement does.
    let b = DynamicBindString::try_from("bind\n$<count + $<counter".to_string()).unwrap();
    let entries = b.compile(SetData::Variable("v".to_string())).unwrap();
    assert_eq!(entries[0], ("count".to_string(), "v = count + counter;".to_string()));
    assert_eq!(entries[1], ("counter".to_string(), "v = State.snapshot(slf.states.count) + counter;".to_string()));
}
