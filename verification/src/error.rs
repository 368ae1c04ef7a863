//! The error taxonomy of the roster normalizer.
//!
//! Every variant is a data error: malformed or unanticipated roster content.
//! No parser recovers locally; each failure propagates to the caller, so a
//! build either yields a whole army or exactly one of these errors.

use vstd::prelude::*;

verus! {

/// A data error raised while normalizing a roster tree.
#[derive(Debug, Clone, PartialEq, Eq)]
pub enum RosterError {
    /// A compact dice/flat stat token matched none of the recognized shapes.
    MalformedStatValue { token: String },
    /// A dice token named a die face other than 3 or 6.
    UnsupportedDieFace { token: String },
    /// A characteristic name outside the lexicon of the record being built.
    UnknownCharacteristic { name: String },
    /// A wounds characteristic was not numeric and the profile name carried
    /// no bracketed wounds-remaining range to fall back on.
    UnresolvableWounds { token: String },
    /// The first token of a weapon type string named no known weapon class.
    UnsupportedWeaponType { token: String },
    /// A profile's type name was not one the enclosing builder handles.
    UnhandledProfileType { profile_type: String },
    /// A selection's type tag was not one of the recognized selection types.
    UnknownSelectionType { selection_type: String },
    /// A root-level cost record carried an unrecognized type identifier.
    UnknownCostType { type_id: String },
    /// A selection lacked a record its shape requires (for example a model
    /// selection without a profile list), or carried one its shape forbids.
    MalformedSelection { context: String },
}

/// The mathematical shadow of `RosterError`: the same variants over
/// character sequences, used by the specification functions.
pub ghost enum RosterErrorView {
    MalformedStatValue { token: Seq<char> },
    UnsupportedDieFace { token: Seq<char> },
    UnknownCharacteristic { name: Seq<char> },
    UnresolvableWounds { token: Seq<char> },
    UnsupportedWeaponType { token: Seq<char> },
    UnhandledProfileType { profile_type: Seq<char> },
    UnknownSelectionType { selection_type: Seq<char> },
    UnknownCostType { type_id: Seq<char> },
    MalformedSelection { context: Seq<char> },
}

impl DeepView for RosterError {
    type V = RosterErrorView;

    open spec fn deep_view(&self) -> RosterErrorView {
        match self {
            RosterError::MalformedStatValue { token } => RosterErrorView::MalformedStatValue {
                token: token@,
            },
            RosterError::UnsupportedDieFace { token } => RosterErrorView::UnsupportedDieFace {
                token: token@,
            },
            RosterError::UnknownCharacteristic { name } => RosterErrorView::UnknownCharacteristic {
                name: name@,
            },
            RosterError::UnresolvableWounds { token } => RosterErrorView::UnresolvableWounds {
                token: token@,
            },
            RosterError::UnsupportedWeaponType { token } => RosterErrorView::UnsupportedWeaponType {
                token: token@,
            },
            RosterError::UnhandledProfileType { profile_type } => RosterErrorView::UnhandledProfileType {
                profile_type: profile_type@,
            },
            RosterError::UnknownSelectionType { selection_type } => RosterErrorView::UnknownSelectionType {
                selection_type: selection_type@,
            },
            RosterError::UnknownCostType { type_id } => RosterErrorView::UnknownCostType {
                type_id: type_id@,
            },
            RosterError::MalformedSelection { context } => RosterErrorView::MalformedSelection {
                context: context@,
            },
        }
    }
}

/// The deep view of a `Result`, variant by variant.
pub open spec fn res_view<T: DeepView, E: DeepView>(r: Result<T, E>) -> Result<T::V, E::V> {
    match r {
        Ok(t) => Ok(t.deep_view()),
        Err(e) => Err(e.deep_view()),
    }
}

} // verus!
