//! The spell record and its parts, each with the mathematical model that the
//! contracts of the codec speak of.
use crate::params::{BindingView, SpellParams};
use vstd::prelude::*;

verus! {

/// A dependency declaration: a mod and the version of it that a spell needs.
#[derive(Clone, Debug, PartialEq, Eq)]
pub struct Mod {
    pub name: String,
    pub version: String,
}

/// The model of a [`Mod`].
pub struct ModView {
    pub name: Seq<char>,
    pub version: Seq<char>,
}

impl View for Mod {
    type V = ModView;

    open spec fn view(&self) -> ModView {
        ModView { name: self.name@, version: self.version@ }
    }
}

/// The payload of a piece: the instruction's key, an optional comment, and
/// either parameter bindings, a constant, or neither.
#[derive(Clone, Debug, PartialEq, Eq)]
pub struct SpellData {
    pub key: String,
    pub params: Option<SpellParams>,
    pub constant: Option<String>,
    pub comment: Option<String>,
}

/// The model of a [`SpellData`].
pub struct SpellDataView {
    pub key: Seq<char>,
    pub params: Option<Seq<BindingView>>,
    pub constant: Option<Seq<char>>,
    pub comment: Option<Seq<char>>,
}

/// The model of an optional text.
pub open spec fn text_view(text: Option<String>) -> Option<Seq<char>> {
    match text {
        Some(t) => Some(t@),
        None => None,
    }
}

/// The model of optional bindings.
pub open spec fn params_view(params: Option<SpellParams>) -> Option<Seq<BindingView>> {
    match params {
        Some(p) => Some(p@),
        None => None,
    }
}

impl View for SpellData {
    type V = SpellDataView;

    open spec fn view(&self) -> SpellDataView {
        SpellDataView {
            key: self.key@,
            params: params_view(self.params),
            constant: text_view(self.constant),
            comment: text_view(self.comment),
        }
    }
}

/// One instruction placed on the grid.
#[derive(Clone, Debug, PartialEq, Eq)]
pub struct Piece {
    pub data: SpellData,
    pub x: u8,
    pub y: u8,
}

/// The model of a [`Piece`].
pub struct PieceView {
    pub data: SpellDataView,
    pub x: u8,
    pub y: u8,
}

impl View for Piece {
    type V = PieceView;

    open spec fn view(&self) -> PieceView {
        PieceView { data: self.data@, x: self.x, y: self.y }
    }
}

/// A spell: its name, the mods it needs, and its pieces in grid order.
#[derive(Clone, Debug, PartialEq, Eq)]
pub struct Spell {
    pub mods: Vec<Mod>,
    pub pieces: Vec<Piece>,
    pub name: String,
}

/// The model of a [`Spell`].
pub struct SpellView {
    pub mods: Seq<ModView>,
    pub pieces: Seq<PieceView>,
    pub name: Seq<char>,
}

/// The models of the mod requirements in `mods`, in order.
pub open spec fn mods_view(mods: Seq<Mod>) -> Seq<ModView> {
    mods.map_values(|m: Mod| m@)
}

/// The models of the pieces in `pieces`, in order.
pub open spec fn pieces_view(pieces: Seq<Piece>) -> Seq<PieceView> {
    pieces.map_values(|p: Piece| p@)
}

impl View for Spell {
    type V = SpellView;

    open spec fn view(&self) -> SpellView {
        SpellView {
            mods: mods_view(self.mods@),
            pieces: pieces_view(self.pieces@),
            name: self.name@,
        }
    }
}

} // verus!
