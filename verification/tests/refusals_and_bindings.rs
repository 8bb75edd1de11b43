use wisdom::{
    compile_bindings, custom_type_name, Checked, CustomPiece, CustomPieceInput, CustomPieceType,
    DynamicBindString, DynamicCallbackString, GameReadError, Pieces, RawCustomPiece, SetData,
    Text, TextData,
};

fn base() -> Pieces {
    Pieces::Text(Text {
        id: "base".to_string(),
        data: TextData { text: None },
        states: vec![],
        events: vec![],
    })
}

fn one_input_type() -> Vec<(String, CustomPieceType)> {
    vec![(
        "Box".to_string(),
        CustomPieceType {
            inputs: vec![
                CustomPieceInput::Callback { id: "act".to_string(), required: true, params: vec![] },
                CustomPieceInput::Bind { id: "label".to_string(), required: true },
            ],
            base: Box::new(base()),
            base_was_built: false,
        },
    )]
}

fn raw(inputs: Vec<(&str, &str)>) -> RawCustomPiece {
    RawCustomPiece {
        id: "b1".to_string(),
        piece_type: "Box".to_string(),
        inputs: inputs.into_iter().map(|(a, b)| (a.to_string(), b.to_string())).collect(),
    }
}

#[test]
fn type_names_of_files() {
    assert_eq!(custom_type_name("Counter.yaml"), Some("Counter".to_string()));
    assert_eq!(custom_type_name("a.b.yaml"), Some("a.b".to_string()));
    assert_eq!(custom_type_name(".yaml"), None);
    assert_eq!(custom_type_name("Counter.yml"), None);
    assert_eq!(custom_type_name("Counter"), None);
    assert_eq!(custom_type_name("Counter.yaml.bak"), None);
}

#[test]
fn first_missing_input_is_named() {
    let types = one_input_type();
    let e = CustomPiece::try_from(raw(vec![("label", "bind\n1")]), &types).err().unwrap();
    assert_eq!(e.msg(), "Input `act` required for custom piece type `Box` (piece 'b1')");
    let e = CustomPiece::try_from(raw(vec![]), &types).err().unwrap();
    assert_eq!(e.msg(), "Input `act` required for custom piece type `Box` (piece 'b1')");
}

#[test]
fn unknown_inputs_come_before_compiling() {
    let types = one_input_type();
    let r = CustomPiece::try_from_checked(
        raw(vec![("act", "callback\nx /é"), ("label", "bind\n1"), ("zzz", "q")]),
        &types,
    );
    match r {
        Checked::Failed(e) => {
            assert_eq!(e.msg(), "Unknown inputs {'zzz'} found for piece 'b1', remove them")
        },
        _ => panic!("expected the unknown inputs error"),
    }
    let r = CustomPiece::try_from_checked(
        raw(vec![("act", "callback\nx /é"), ("label", "bind\n1")]),
        &types,
    );
    assert!(matches!(r, Checked::Panics));
    let r = CustomPiece::try_from_checked(
        raw(vec![("act", "callback\n$ x"), ("label", "bind\n1")]),
        &types,
    );
    match r {
        Checked::Failed(e) => {
            assert!(matches!(e, GameReadError::DynamicString(_)));
            assert_eq!(e.msg(), "floating '$' found in `$ x`");
        },
        _ => panic!("expected the rune error"),
    }
}

#[test]
fn failed_binding_changes_nothing() {
    let data = DynamicBindString::try_from("bind\n$+1".to_string()).unwrap();
    let mut result = vec!["before".to_string()];
    let mut bindings = vec![("count".to_string(), vec!["x".to_string()])];
    let r = compile_bindings(&data, &mut result, SetData::Variable("v".to_string()), &mut bindings);
    assert_eq!(r.err().unwrap().msg(), "unknown rune '$+' found in `$+1`");
    assert_eq!(result, vec!["before".to_string()]);
    assert_eq!(bindings, vec![("count".to_string(), vec!["x".to_string()])]);
}

#[test]
fn successful_binding_adds_to_each_state() {
    let data = DynamicBindString::try_from("bind\n$<count + $<other".to_string()).unwrap();
    let mut result = vec![];
    let mut bindings = vec![
        ("count".to_string(), vec!["x".to_string()]),
        ("kept".to_string(), vec!["k".to_string()]),
    ];
    compile_bindings(&data, &mut result, SetData::Variable("v".to_string()), &mut bindings).unwrap();
    assert_eq!(
        result,
        vec!["v = State.snapshot(slf.states.count) + State.snapshot(slf.states.other);".to_string()]
    );
    assert_eq!(
        bindings,
        vec![
            (
                "count".to_string(),
                vec!["x".to_string(), "v = count + State.snapshot(slf.states.other);".to_string()]
            ),
            ("kept".to_string(), vec!["k".to_string()]),
            (
                "other".to_string(),
                vec!["v = State.snapshot(slf.states.count) + other;".to_string()]
            ),
        ]
    );
}

#[test]
fn strings_give_back_their_source() {
    let c = DynamicCallbackString::try_from("callback\nx()".to_string()).unwrap();
    assert_eq!(c.source(), "callback\nx()");
    assert_eq!(String::from(c), "callback\nx()");
    let b = DynamicBindString::try_from("bind\n1".to_string()).unwrap();
    assert_eq!(String::from(b), "bind\n1");
}
