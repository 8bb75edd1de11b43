use std::collections::HashMap;

use wisdom::{DynamicBindString, DynamicCallbackString, SetData};

fn compile_callback(source: &str) -> String {
    let dynamic_string = DynamicCallbackString::try_from(source.to_string()).unwrap();
    dynamic_string.compile("slf.element.onclick").unwrap()
}

fn compile_binding(source: &str) -> HashMap<String, String> {
    let dynamic_string = DynamicBindString::try_from(source.to_string()).unwrap();
    dynamic_string
        .compile(SetData::Variable("slf.element.innerHTML".to_string()))
        .unwrap()
        .into_iter()
        .collect()
}

#[test]
fn test_dynamic_callback_string() {
    /* Regular usage */
    assert_eq!(
        compile_callback("callback\n$>count + 1"),
        "slf.element.onclick = () => {\n    State.mutate(slf.states.count, (count) =>\n        count + 1\n    );\n}"
    );

    /* With comment */
    assert_eq!(
        compile_callback("callback\n$>count + 1 // With comment and $>count"),
        "slf.element.onclick = () => {\n    State.mutate(slf.states.count, (count) =>\n        count + 1 // With comment and $>count\n    );\n}"
    );

    /* With strings */
    assert_eq!(
        compile_callback("callback\n\"`$>count` = \" + $>count + \"!\""),
        "slf.element.onclick = () => {\n    State.mutate(slf.states.count, (count) =>\n        \"`$>count` = \" + count + \"!\"\n    );\n}"
    );

    /* With multiple mutates of same state */
    assert_eq!(
        compile_callback("callback\n$>count + ($>count + 1)"),
        "slf.element.onclick = () => {\n    State.mutate(slf.states.count, (count) =>\n        count + (count + 1)\n    );\n}"
    );

    /* With escaped $ */
    assert_eq!(
        compile_callback("callback\nnon$$state = 15;"),
        "slf.element.onclick = () => {\n    non$state = 15;\n}"
    );

    /* Mutate with no read */
    assert_eq!(
        compile_callback("callback\n$>display: \"hello world\""),
        "slf.element.onclick = () => {\n    State.mutate(slf.states.display, (display) =>\n        \"hello world\"\n    );\n}"
    );

    /* With state snapshot */
    assert_eq!(
        compile_callback("callback\n$>count + $other"),
        "slf.element.onclick = () => {\n    State.mutate(slf.states.count, (count) =>\n        count + State.snapshot(slf.states.other)\n    );\n}"
    );

    /* With multiple lines */
    assert_eq!(
        compile_callback("callback\nvariable += 8;\n$>count * variable\n$>display: \"hello world\""),
        "slf.element.onclick = () => {\n    variable += 8;\n    State.mutate(slf.states.count, (count) =>\n        count * variable\n    );\n    State.mutate(slf.states.display, (display) =>\n        \"hello world\"\n    );\n}"
    );
}

#[test]
fn test_dynamic_callback_string_errors() {
    /* Empty rune */
    let dynamic_string = DynamicCallbackString::try_from("callback\n$ + 1".to_string()).unwrap();
    assert!(dynamic_string
        .compile("slf.element.onclick")
        .unwrap_err()
        .msg()
        .starts_with("floating '$' found in"));

    /* Unknown rune */
    let dynamic_string = DynamicCallbackString::try_from("callback\n$+ 1".to_string()).unwrap();
    assert!(dynamic_string
        .compile("slf.element.onclick")
        .unwrap_err()
        .msg()
        .starts_with("unknown rune '$+' found in"));

    /* State starting with number */
    let dynamic_string = DynamicCallbackString::try_from("callback\n$1state + 1".to_string()).unwrap();
    assert!(dynamic_string
        .compile("slf.element.onclick")
        .unwrap_err()
        .msg()
        .starts_with("unknown rune '$1' found in"));
}

#[test]
fn test_dynamic_binding_string() {
    /* Simple binding with static value */
    let expected = HashMap::from([(
        "".to_string(),
        "slf.element.innerHTML = \"Display this string\";".to_string(),
    )]);
    assert_eq!(compile_binding("bind\n\"Display this string\""), expected);

    /* Simple binding with state subscription */
    let expected = HashMap::from([
        (
            "".to_string(),
            "slf.element.innerHTML = State.snapshot(slf.states.count);".to_string(),
        ),
        ("count".to_string(), "slf.element.innerHTML = count;".to_string()),
    ]);
    assert_eq!(compile_binding("bind\n$<count"), expected);

    /* Standard binding with static value */
    let expected = HashMap::from([(
        "".to_string(),
        "slf.element.innerHTML = (() => {\n    return \"Display this string\";\n})();".to_string(),
    )]);
    assert_eq!(compile_binding("bind\nreturn \"Display this string\";"), expected);

    /* Standard binding with state subscription */
    let expected = HashMap::from([
        (
            "".to_string(),
            "slf.element.innerHTML = (() => {\n    return State.snapshot(slf.states.count);\n})();"
                .to_string(),
        ),
        (
            "count".to_string(),
            "slf.element.innerHTML = (() => {\n    return count;\n})();".to_string(),
        ),
    ]);
    assert_eq!(compile_binding("bind\nreturn $<count;"), expected);

    /* With multiple state subscriptions */
    let expected = HashMap::from([
        (
            "".to_string(),
            "slf.element.innerHTML = State.snapshot(slf.states.count) * State.snapshot(slf.states.mult);"
                .to_string(),
        ),
        (
            "count".to_string(),
            "slf.element.innerHTML = count * State.snapshot(slf.states.mult);".to_string(),
        ),
        (
            "mult".to_string(),
            "slf.element.innerHTML = State.snapshot(slf.states.count) * mult;".to_string(),
        ),
    ]);
    assert_eq!(compile_binding("bind\n$<count * $<mult"), expected);
}
