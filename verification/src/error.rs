//! The errors of reading and building a game.
use vstd::prelude::*;
use vstd::std_specs::convert::FromSpecImpl;

verus! {

#[verifier::external_type_specification]
#[verifier::external_body]
pub struct ExIoError(std::io::Error);

#[verifier::external_type_specification]
#[verifier::external_body]
pub struct ExSaphyrError(serde_saphyr::Error);

/// Why a game description could not be read.
#[derive(Debug)]
pub enum GameReadError {
    Io(std::io::Error),
    SerdeSaphyr(serde_saphyr::Error),
    DynamicString(String),
    CustomPiece(String),
    State(String),
}

/// Why a game could not be built.
#[derive(Debug)]
pub enum GameBuildError {
    GameRead(GameReadError),
    Io(std::io::Error),
}

/// The result of a compilation step that may also reach an input on which
/// slicing a string at a byte offset would land inside a multi-byte character
/// and panic.
pub enum Checked<T> {
    Done(T),
    Failed(GameReadError),
    Panics,
}

/// The message of an I/O error, as its `Display` implementation writes it.
#[verifier::external_body]
fn io_error_message(e: &std::io::Error) -> String {
    e.to_string()
}

/// The message of a YAML error of `serde_saphyr`, as its `Display` implementation writes it.
#[verifier::external_body]
fn saphyr_error_message(e: &serde_saphyr::Error) -> String {
    e.to_string()
}

/// The message carried by an error of the library's own (not an I/O or YAML error).
pub open spec fn own_message(e: GameReadError) -> Option<Seq<char>> {
    match e {
        GameReadError::DynamicString(m) => Some(m@),
        GameReadError::CustomPiece(m) => Some(m@),
        GameReadError::State(m) => Some(m@),
        _ => None,
    }
}

impl GameReadError {
    /// The error's message.
    pub fn msg(&self) -> (r: String)
        ensures
            own_message(*self) matches Some(m) ==> r@ == m,
    {
        match self {
            GameReadError::Io(error) => io_error_message(error),
            GameReadError::SerdeSaphyr(error) => saphyr_error_message(error),
            GameReadError::DynamicString(error) => error.clone(),
            GameReadError::CustomPiece(error) => error.clone(),
            GameReadError::State(error) => error.clone(),
        }
    }
}

impl From<std::io::Error> for GameReadError {
    fn from(value: std::io::Error) -> (r: Self) {
        GameReadError::Io(value)
    }
}

impl FromSpecImpl<std::io::Error> for GameReadError {
    open spec fn obeys_from_spec() -> bool {
        true
    }

    open spec fn from_spec(v: std::io::Error) -> Self {
        GameReadError::Io(v)
    }
}

impl From<serde_saphyr::Error> for GameReadError {
    fn from(value: serde_saphyr::Error) -> (r: Self) {
        GameReadError::SerdeSaphyr(value)
    }
}

impl FromSpecImpl<serde_saphyr::Error> for GameReadError {
    open spec fn obeys_from_spec() -> bool {
        true
    }

    open spec fn from_spec(v: serde_saphyr::Error) -> Self {
        GameReadError::SerdeSaphyr(v)
    }
}

impl From<GameReadError> for GameBuildError {
    fn from(value: GameReadError) -> (r: Self) {
        GameBuildError::GameRead(value)
    }
}

impl FromSpecImpl<GameReadError> for GameBuildError {
    open spec fn obeys_from_spec() -> bool {
        true
    }

    open spec fn from_spec(v: GameReadError) -> Self {
        GameBuildError::GameRead(v)
    }
}

impl From<std::io::Error> for GameBuildError {
    fn from(value: std::io::Error) -> (r: Self) {
        GameBuildError::Io(value)
    }
}

impl FromSpecImpl<std::io::Error> for GameBuildError {
    open spec fn obeys_from_spec() -> bool {
        true
    }

    open spec fn from_spec(v: std::io::Error) -> Self {
        GameBuildError::Io(v)
    }
}

} // verus!
