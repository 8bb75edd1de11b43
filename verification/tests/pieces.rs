use wisdom::{
    CustomPiece, CustomPieceInput, CustomPieceType, DynamicBindString, Event, Game, GameData,
    GameReadError, Layout, LayoutData, PieceData, Pieces, PlaceX, RawCustomPiece, RawStateData,
    Section, SectionData, State, StateData, Text, TextData, View, ViewData, Generator,
    GeneratorData,
};

fn bind(s: &str) -> DynamicBindString {
    DynamicBindString::try_from(s.to_string()).unwrap()
}

fn text(id: &str, content: Option<&str>) -> Text {
    Text {
        id: id.to_string(),
        data: TextData { text: content.map(bind) },
        states: vec![],
        events: vec![],
    }
}

#[test]
fn text_load_function() {
    let piece = Pieces::Text(text("hello", Some("bind\n$<count")));
    assert_eq!(piece.html_skeleton(), "<p id=\\\"Text$hello\\\"></p>");
    assert_eq!(piece.js_load_call(), "load_Text$hello(slf);");
    assert_eq!(
        piece.js_load_fn().unwrap(),
        "function load_Text$hello(parent) {\n    let slf = {\n        element: document.querySelector(\"#Text\\\\$hello\"),\n        states: Object.create(parent.states),\n        events: Object.create(parent.events),\n    };\n\n    // States\n    \n\n    // Events\n    \n\n    // State subscriptions\n    State.subscribe(slf.states.count, (count) => {\n        slf.element.innerHTML = count;\n    });\n\n    // Data initializations\n    slf.element.innerHTML = State.snapshot(slf.states.count);\n\n    // Children\n    \n}"
    );
}

#[test]
fn layout_loads_its_children() {
    let layout = Layout {
        id: "main".to_string(),
        data: LayoutData { place_x: PlaceX::SpaceEvenly },
        states: vec![],
        events: vec![Event {}, Event {}],
        pieces: vec![Pieces::Text(text("a", None))],
    };
    let (htmls, calls) = layout.js_load_children().unwrap();
    assert_eq!(htmls, "<p id=\\\"Text$a\\\"></p>");
    assert_eq!(calls, "unloads.push(load_Text$a(slf););");
    assert_eq!(
        layout.data.js_register().ok().unwrap(),
        ("slf.element.style.justifyContent = \"space-evenly\";".to_string(), "".to_string())
    );
    let all = Pieces::Layout(layout).js_load_fn().unwrap();
    let child = Pieces::Text(text("a", None)).js_load_fn().unwrap();
    assert!(all.ends_with(&child));
    assert!(all.starts_with("function load_Layout$main(parent) {"));
    assert!(all.contains("    // Events\n    \n\n"));
    assert!(all.contains("    // Children\n    slf.element.innerHTML = \"<p id=\\\"Text$a\\\"></p>\";\n    unloads.push(load_Text$a(slf););\n}function load_Text$a"));
}

#[test]
fn section_without_pieces() {
    let section = Section {
        id: "s".to_string(),
        data: SectionData {},
        states: vec![],
        events: vec![],
        pieces: vec![],
    };
    assert_eq!(section.piece_id(true), "Section\\\\$s");
    let all = Pieces::Section(section).js_load_fn().unwrap();
    assert!(all.ends_with("    // Children\n    slf.element.innerHTML = \"\";\n}"));
}

#[test]
fn view_swaps_between_pieces() {
    let view = View {
        id: "v".to_string(),
        data: ViewData { index: bind("bind\n$<page") },
        states: vec![],
        events: vec![],
        pieces: (0..11).map(|i| Pieces::Text(text(&format!("t{i}"), None))).collect(),
    };
    let props = view.extra_slf_props().unwrap();
    assert!(props.starts_with("unloads: () => {},\ncurr_index: undefined,\nswapView: function(index) {\n"));
    assert!(props.contains("    if (index == 0) {\n        this.element.innerHTML = \"<p id=\\\"Text$t0\\\"></p>\";\n        unloads.push(load_Text$t0(slf););\n    }\n"));
    assert!(props.contains("if (index == 10) {"));
    let (inits, subs) = view.data.js_register().ok().unwrap();
    assert_eq!(inits, "slf.swapView(State.snapshot(slf.states.page));");
    assert_eq!(subs, "State.subscribe(slf.states.page, (page) => {\n    slf.swapView(page);\n});");
}

#[test]
fn generator_repeats_its_base() {
    let generator = Generator {
        id: "g".to_string(),
        data: GeneratorData {
            index: "i".to_string(),
            iterator: "_".to_string(),
            list: bind("bind\n$items"),
        },
        states: vec![],
        events: vec![],
        base: Box::new(Pieces::Text(text("item", None))),
    };
    let props = generator.extra_slf_props().unwrap();
    assert!(props.contains("        if (\"_\" != \"_\") {\n            inputs._ = it;\n        }\n        if (\"i\" != \"_\") {\n            inputs.i = idx;\n        }\n"));
    assert!(props.contains("        // Base\n        let child = document.createElement(null);\n        slf.element.appendChild(child);\n        child.outerHTML = <p id=\\\"Text$item\\\"></p>;\n        unloads.push(load_Text$item(slf););\n    });"));
    let all = Pieces::Generator(generator).js_load_fn().unwrap();
    assert!(all.contains("slf.update(State.snapshot(slf.states.items));"));
    assert!(all.ends_with(&Pieces::Text(text("item", None)).js_load_fn().unwrap()));
}

#[test]
fn state_registration() {
    let plain = State {
        id: "count".to_string(),
        data: StateData::from_raw(RawStateData { initial_value: bind("bind\n0"), validate: None }),
    };
    assert_eq!(plain.js_register().unwrap(), "slf.states.count = State.create(0, {\n    \n})");

    let validated = State {
        id: "count".to_string(),
        data: StateData::from_raw(RawStateData {
            initial_value: bind("bind\n0"),
            validate: Some("callback\nreturn newState > 0;".to_string()),
        }),
    };
    assert_eq!(
        validated.js_register().unwrap(),
        "slf.states.count = State.create(0, {\n    validate:  = (newState) => {\n        return newState > 0;\n    }\n})"
    );
}

#[test]
fn states_cannot_subscribe() {
    let e = StateData::compile_bind_data(&bind("bind\n$<other"), "init").unwrap_err();
    assert!(matches!(e, GameReadError::State(_)));
    assert_eq!(e.msg(), "States cannot depend on other states through subscriptions ('init')");
    assert_eq!(StateData::compile_bind_data(&bind("bind\n1 + 1"), "init").unwrap(), "init: 1 + 1");
}

#[test]
fn state_errors_surface() {
    let bad = State {
        id: "s".to_string(),
        data: StateData::from_raw(RawStateData { initial_value: bind("bind\n$ oops"), validate: None }),
    };
    let game = Game {
        data: GameData { title: "T".to_string() },
        states: vec![bad],
        events: vec![],
        pieces: vec![],
    };
    let e = game.script_contents().unwrap_err();
    assert!(matches!(e, GameReadError::DynamicString(_)));
    assert_eq!(e.msg(), "floating '$' found in `$ oops`");
}

#[test]
fn game_page_and_script() {
    let game = Game {
        data: GameData { title: "My Game".to_string() },
        states: vec![],
        events: vec![],
        pieces: vec![Pieces::Text(text("t", None))],
    };
    assert!(game.html_contents().contains("    <title>My Game</title>\n"));
    assert!(game.html_contents().starts_with("<!DOCTYPE html>\n<html lang=\"en\">\n<head>\n"));
    assert!(game.html_contents().ends_with("</body>\n</html>"));
    assert_eq!(game.js_load_children(), "load_Text$t(slf);;");
    let script = game.script_contents().unwrap();
    let child = Pieces::Text(text("t", None)).js_load_fn().unwrap();
    assert!(script.starts_with("function load_Game() {\n    let inputs = Object.create(null);\n"));
    assert!(script.contains("    // Children\n    load_Text$t(slf);;\n}\n\n"));
    assert!(script.ends_with(&format!("}}\n\n{child}")));
}

fn counter_type() -> Vec<(String, CustomPieceType)> {
    vec![(
        "Counter".to_string(),
        CustomPieceType {
            inputs: vec![
                CustomPieceInput::Bind { id: "label".to_string(), required: true },
                CustomPieceInput::Callback {
                    id: "on_click".to_string(),
                    required: false,
                    params: vec!["event".to_string()],
                },
            ],
            base: Box::new(Pieces::Text(text("label", None))),
            base_was_built: false,
        },
    )]
}

fn raw(inputs: Vec<(&str, &str)>, piece_type: &str) -> RawCustomPiece {
    RawCustomPiece {
        id: "c1".to_string(),
        piece_type: piece_type.to_string(),
        inputs: inputs.into_iter().map(|(a, b)| (a.to_string(), b.to_string())).collect(),
    }
}

#[test]
fn custom_piece_compiles_its_inputs() {
    let mut types = counter_type();
    let piece = CustomPiece::try_from(
        raw(vec![("label", "bind\n$<count"), ("on_click", "callback\nx()")], "Counter"),
        &types,
    )
    .unwrap();
    assert_eq!(piece.id, "c1");
    assert_eq!(
        piece.data.inits,
        "inputs.label = State.snapshot(slf.states.count);\ninputs.on_click = (event) => {\n    x()\n};"
    );
    assert_eq!(
        piece.data.bindings,
        "State.subscribe(slf.states.count, (count) => {\n    inputs.label = count;\n});"
    );
    assert_eq!(
        piece.js_load_call(&types[0].1),
        "{\n    const outer_inputs = inputs;\n\n    {\n        let inputs = Object.create(outer_inputs);\n        inputs.label = State.snapshot(slf.states.count);\n        inputs.on_click = (event) => {\n            x()\n        };\n\n        unloads.push(load_Text$label(slf););\n    }\n}"
    );
    assert_eq!(piece.html_skeleton(&types[0].1), "<p id=\\\"Text$label\\\"></p>");
    let first = piece.js_load_fn(&mut types[0].1).unwrap();
    assert!(first.starts_with("function load_Text$label(parent) {"));
    assert_eq!(piece.js_load_fn(&mut types[0].1).unwrap(), "");
    assert!(types[0].1.base_was_built);
}

#[test]
fn custom_piece_refusals() {
    let types = counter_type();
    let e = CustomPiece::try_from(raw(vec![("label", "bind\n1")], "Nope"), &types).err().unwrap();
    assert_eq!(e.msg(), "Undefined custom piece type `Nope`");
    let e = CustomPiece::try_from(raw(vec![], "Counter"), &types).err().unwrap();
    assert!(matches!(e, GameReadError::CustomPiece(_)));
    assert_eq!(e.msg(), "Input `label` required for custom piece type `Counter` (piece 'c1')");
    let e = CustomPiece::try_from(
        raw(vec![("label", "bind\n1"), ("extra", "x"), ("more", "y")], "Counter"),
        &types,
    )
    .err()
    .unwrap();
    assert_eq!(e.msg(), "Unknown inputs {'extra', 'more'} found for piece 'c1', remove them");
}
