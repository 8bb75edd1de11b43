//! The game: the root of all pieces, compiled to an HTML page and a script.
use vstd::prelude::*;

use crate::error::GameReadError;
use crate::event::Event;
use crate::half_compiled::Outcome;
use crate::outside::indent_by;
use crate::pieces::{
    lemma_children_load_fns_concat, lemma_children_ok_prefix, load_fn_texts,
    children_ok, lemma_children_ok, lemma_states_ok, states_compile_safely, states_ok,
    children_load_fns, concat_outcomes, events_text, lemma_children_prefix, load_fns,
    register_events, register_states, states_register, Pieces,
};
use crate::state::State;
use crate::text::{concat, join, join_strings, views};

verus! {

/// A game: its title, its states and events, and its pieces.
#[derive(Debug)]
pub struct Game {
    pub data: GameData,
    pub states: Vec<State>,
    pub events: Vec<Event>,
    pub pieces: Vec<Pieces>,
}

/// The game's title.
#[derive(Debug)]
pub struct GameData {
    pub title: String,
}

/// The calls that load the game's pieces, one per line.
pub open spec fn game_children(ps: Seq<Pieces>) -> Seq<char> {
    join(ps.map_values(|p: Pieces| p.load_call() + ";"@), "\n"@)
}

/// The HTML page of a game with the title `title`.
pub open spec fn game_html(title: Seq<char>) -> Seq<char> {
    "<!DOCTYPE html>\n<html lang=\"en\">\n<head>\n    <meta charset=\"UTF-8\">\n    <meta name=\"viewport\" content=\"width=device-width, initial-scale=1.0\">\n    <link rel=\"stylesheet\" href=\"styles.css\">\n    <title>"@
        + title
        + "</title>\n</head>\n<body>\n    <div id=\"Game\"></div>\n    <script type=\"module\" src=\"script.js\"></script>\n</body>\n</html>"@
}

/// The game's own load function, followed by two empty lines.
pub open spec fn game_load_fn(states: Seq<char>, events: Seq<char>, children: Seq<char>) -> Seq<char> {
    "function load_Game() {\n    let inputs = Object.create(null);\n    let slf = {\n        element: document.querySelector(\"#Game\"),\n        states: Object.create(null),\n        events: Object.create(null),\n    };\n    let unloads = []; // Never actually matters, but prevents errors\n\n    // States\n    "@
        + states + "\n\n    // Events\n    "@ + events + "\n\n    // Children\n    "@ + children
        + "\n}\n\n"@
}

/// The outcome of the game's script: its states are registered first, then
/// come the game's load function and the load functions of all its pieces.
pub open spec fn game_script(g: Game) -> Outcome<Seq<char>> {
    states_register(g.states@).and_then(
        |sts: Seq<Seq<char>>|
            concat_outcomes(
                Outcome::Done(
                    game_load_fn(
                        crate::text::indent_by(4, join(sts, "\n"@)),
                        crate::text::indent_by(4, events_text(g.events@.len())),
                        crate::text::indent_by(4, game_children(g.pieces@)),
                    ),
                ),
                children_load_fns(g.pieces@, g.pieces@.len() as int),
            ),
    )
}

impl Game {
    /// The calls that load the game's pieces, one per line.
    pub fn js_load_children(&self) -> (r: String)
        ensures
            r@ == game_children(self.pieces@),
    {
        let mut load_fns: Vec<String> = Vec::new();
        let mut i: usize = 0;
        let ghost goal = self.pieces@.map_values(|p: Pieces| p.load_call() + ";"@);
        while i < self.pieces.len()
            invariant
                i <= self.pieces@.len(),
                goal == self.pieces@.map_values(|p: Pieces| p.load_call() + ";"@),
                views(load_fns@) == goal.take(i as int),
            decreases self.pieces.len() - i,
        {
            let mut call = self.pieces[i].js_load_call();
            call.push_str(";");
            let ghost before = views(load_fns@);
            let ghost cv = call@;
            load_fns.push(call);
            assert(views(load_fns@) =~= before.push(cv));
            assert(goal.take(i + 1) =~= goal.take(i as int).push(cv));
            i = i + 1;
        }
        assert(goal.take(i as int) =~= goal);
        join_strings(&load_fns, "\n")
    }

    /// The game's HTML page.
    pub fn html_contents(&self) -> (r: String)
        ensures
            r@ == game_html(self.data.title@),
    {
        let mut out = String::new();
        out.push_str(
            "<!DOCTYPE html>\n<html lang=\"en\">\n<head>\n    <meta charset=\"UTF-8\">\n    <meta name=\"viewport\" content=\"width=device-width, initial-scale=1.0\">\n    <link rel=\"stylesheet\" href=\"styles.css\">\n    <title>",
        );
        out.push_str(self.data.title.as_str());
        out.push_str(
            "</title>\n</head>\n<body>\n    <div id=\"Game\"></div>\n    <script type=\"module\" src=\"script.js\"></script>\n</body>\n</html>",
        );
        out
    }

    /// The game's script: the game's load function, then the load functions of
    /// all its pieces.
    pub fn script_contents(&self) -> (r: Result<String, GameReadError>)
        requires
            !(game_script(*self) is Stuck),
        ensures
            match game_script(*self) {
                Outcome::Done(t) => r matches Ok(s) && s@ == t,
                Outcome::Failed(m) => r matches Err(GameReadError::DynamicString(e)) && e@ == m,
                Outcome::Stuck => false,
            },
    {
        let registered = register_states(&self.states);
        let registered = match registered {
            Ok(r) => r,
            Err(e) => {
                return Err(e);
            },
        };
        let register_states = indent_by(4, registered.as_str());
        let events_joined = register_events(&self.events);
        let register_events = indent_by(4, events_joined.as_str());
        let children = self.js_load_children();
        let load_children = indent_by(4, children.as_str());
        let mut out = String::new();
        out.push_str(
            "function load_Game() {\n    let inputs = Object.create(null);\n    let slf = {\n        element: document.querySelector(\"#Game\"),\n        states: Object.create(null),\n        events: Object.create(null),\n    };\n    let unloads = []; // Never actually matters, but prevents errors\n\n    // States\n    ",
        );
        out.push_str(register_states.as_str());
        out.push_str("\n\n    // Events\n    ");
        out.push_str(register_events.as_str());
        out.push_str("\n\n    // Children\n    ");
        out.push_str(load_children.as_str());
        out.push_str("\n}\n\n");
        let ghost own_text = out@;
        let ghost ps = self.pieces@;
        let ghost total = game_script(*self);
        assert(total == concat_outcomes(
            Outcome::Done(own_text),
            children_load_fns(ps, ps.len() as int),
        ));
        let mut i: usize = 0;
        while i < self.pieces.len()
            invariant
                i <= ps.len(),
                ps == self.pieces@,
                total == game_script(*self),
                !(total is Stuck),
                total == concat_outcomes(
                    Outcome::Done(own_text),
                    children_load_fns(ps, ps.len() as int),
                ),
                children_load_fns(ps, i as int) matches Outcome::Done(t) && out@ == own_text + t,
            decreases self.pieces.len() - i,
        {
            let piece = &self.pieces[i];
            proof {
                if load_fns(*piece) is Stuck {
                    lemma_children_prefix(ps, i + 1, ps.len() as int);
                }
            }
            let f = piece.js_load_fn();
            match f {
                Ok(t) => {
                    out.push_str(t.as_str());
                },
                Err(e) => {
                    proof {
                        lemma_children_prefix(ps, i + 1, ps.len() as int);
                    }
                    return Err(e);
                },
            }
            i = i + 1;
        }
        Ok(out)
    }
}

/// No dynamic string of the game runs into the slicing panic of the rune scan.
pub open spec fn game_ok(g: Game) -> bool {
    states_ok(g.states@) && children_ok(g.pieces@, g.pieces@.len() as int)
}

/// A game whose dynamic strings run into no slicing panic gives a script or
/// an error, never the panic.
pub proof fn lemma_game_ok(g: Game)
    requires
        game_ok(g),
    ensures
        !(game_script(g) is Stuck),
{
    lemma_states_ok(g.states@);
    lemma_children_ok(g.pieces@, g.pieces@.len() as int);
}

impl Game {
    /// Whether the game's script compiles without the slicing panic of the
    /// rune scan; when it does, `script_contents` may be called.
    pub fn compiles_safely(&self) -> (r: bool)
        ensures
            r == game_ok(*self),
            r ==> !(game_script(*self) is Stuck),
    {
        if !states_compile_safely(&self.states) {
            return false;
        }
        let ps = &self.pieces;
        let mut i: usize = 0;
        while i < ps.len()
            invariant
                i <= ps@.len(),
                ps@ == self.pieces@,
                states_ok(self.states@),
                children_ok(ps@, i as int),
            decreases ps.len() - i,
        {
            if !ps[i].compiles_safely() {
                proof {
                    lemma_children_ok_prefix(ps@, i + 1, ps@.len() as int);
                }
                return false;
            }
            i = i + 1;
        }
        proof {
            lemma_game_ok(*self);
        }
        true
    }
}

/// The game's script is the game's own load function, which registers its
/// states and events and calls the load function of each of its pieces in
/// order, followed by the load functions of its pieces, in order.
pub proof fn lemma_game_script_order(g: Game)
    ensures
        game_script(g) matches Outcome::Done(t) ==> {
            &&& states_register(g.states@) matches Outcome::Done(sts)
            &&& forall|i: int| 0 <= i < g.pieces@.len() ==> #[trigger] load_fns(g.pieces@[i]) is Done
            &&& t == game_load_fn(
                crate::text::indent_by(4, join(sts, "\n"@)),
                crate::text::indent_by(4, events_text(g.events@.len())),
                crate::text::indent_by(4, game_children(g.pieces@)),
            ) + concat(load_fn_texts(g.pieces@, g.pieces@.len() as int))
        },
{
    lemma_children_load_fns_concat(g.pieces@, g.pieces@.len() as int);
}

} // verus!
