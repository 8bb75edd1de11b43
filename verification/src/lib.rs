//! Wisdom compiles the description of a game (its pieces, states and dynamic
//! strings) into the JavaScript and HTML of a single-page application.
mod dynamic_string;
mod error;
mod event;
mod half_compiled;
mod outside;
mod pieces;
mod runes;
mod sections;
mod state;
mod text;

pub use dynamic_string::{DynamicBindString, DynamicCallbackString, DynamicString, SetData};
pub use error::{Checked, GameBuildError, GameReadError};
pub use event::Event;
pub use half_compiled::HalfCompiledDynamicString;
pub use pieces::custom_piece::{
    custom_type_name, CustomPiece, CustomPieceData, CustomPieceInput, CustomPieceType, RawCustomPiece,
};
pub use pieces::game::{Game, GameData};
pub use pieces::generator::{Generator, GeneratorData};
pub use pieces::layout::{Layout, LayoutData, PlaceX};
pub use pieces::section::{Section, SectionData};
pub use pieces::text::{Text, TextData};
pub use pieces::view::{View, ViewData};
pub use pieces::{compile_bindings, register_subscriptions, PieceData, Pieces};
pub use runes::ReplacedRefsDsc;
pub use sections::SectionedStrings;
pub use state::{RawStateData, State, StateData};
