//! The input document tree: the node shapes produced by the external
//! roster-document deserializer. The normalizer consumes this tree and
//! never mutates it.
//!
//! Numeric cost values are whole numbers here; the deserialization boundary
//! is responsible for converting whatever numeric syntax the document uses.

use vstd::prelude::*;

verus! {

broadcast use vstd::std_specs::vec::group_vec_axioms;

/// The root of a roster document.
#[derive(Debug)]
pub struct Roster {
    pub id: String,
    pub name: String,
    pub battle_scribe_version: String,
    pub game_system_id: String,
    pub game_system_name: String,
    pub game_system_revision: String,
    pub costs: Costs,
    pub forces: Forces,
}

/// A list of cost records.
#[derive(Debug, Clone, PartialEq)]
pub struct Costs {
    pub costs: Vec<Cost>,
}

/// A list of forces.
#[derive(Debug)]
pub struct Forces {
    pub forces: Vec<Force>,
}

/// One cost record: a display name, a fixed type identifier, and a value.
#[derive(Debug, Clone, PartialEq)]
pub struct Cost {
    pub name: String,
    pub type_id: String,
    pub value: i64,
}

/// One force: a top-level grouping of selections.
#[derive(Debug)]
pub struct Force {
    pub id: String,
    pub name: String,
    pub entry_id: String,
    pub catalogue_id: String,
    pub catalogue_revision: String,
    pub catalogue_name: String,
    pub selections: Selections,
    pub publications: Publications,
    pub rules: Option<Rules>,
}

/// A list of selections.
#[derive(Debug)]
pub struct Selections {
    pub selections: Vec<Selection>,
}

/// One node of the roster tree: a chosen unit, model or upgrade entry.
#[derive(Debug)]
pub struct Selection {
    pub id: String,
    pub name: String,
    pub entry_id: String,
    pub number: u8,
    pub selection_type: String,
    pub entry_group_id: Option<String>,
    pub publication_id: Option<String>,
    pub selections: Option<Selections>,
    pub costs: Option<Costs>,
    pub profiles: Option<Profiles>,
    pub categories: Option<Categories>,
    pub rules: Option<Rules>,
}

/// A list of profiles.
#[derive(Debug, Clone, PartialEq)]
pub struct Profiles {
    pub profiles: Vec<Profile>,
}

/// A typed bundle of characteristics describing one aspect of a selection.
#[derive(Debug, Clone, PartialEq)]
pub struct Profile {
    pub id: String,
    pub name: String,
    pub hidden: bool,
    pub type_id: String,
    pub profile_type: String,
    pub characteristics: Characteristics,
}

/// A list of characteristics.
#[derive(Debug, Clone, PartialEq)]
pub struct Characteristics {
    pub characteristics: Vec<Characteristic>,
}

/// One named field of a profile, with an optional text value.
#[derive(Debug, Clone, PartialEq)]
pub struct Characteristic {
    pub name: String,
    pub type_id: String,
    pub value: Option<String>,
}

/// A list of categories.
#[derive(Debug, Clone, PartialEq)]
pub struct Categories {
    pub categories: Vec<Category>,
}

/// One category tag on a selection; category names become keywords.
#[derive(Debug, Clone, PartialEq)]
pub struct Category {
    pub id: String,
    pub name: String,
    pub entry_id: String,
    pub primary: bool,
}

/// A list of rules.
#[derive(Debug, Clone, PartialEq)]
pub struct Rules {
    pub rules: Vec<Rule>,
}

/// One named rule attached to a selection or force.
#[derive(Debug, Clone, PartialEq)]
pub struct Rule {
    pub id: String,
    pub name: String,
    pub hidden: bool,
    pub publication_id: Option<String>,
    pub page: Option<u32>,
}

/// A list of publications.
#[derive(Debug, Clone, PartialEq)]
pub struct Publications {
    pub publications: Vec<Publication>,
}

/// One publication reference.
#[derive(Debug, Clone, PartialEq)]
pub struct Publication {
    pub id: String,
    pub name: String,
}

/// The child selection vector stands below its selection in the
/// termination order; recursions over the tree decrease through it.
pub proof fn lemma_child_vec_decreases(s: Selection, ss: Selections)
    requires
        s.selections == Some(ss),
    ensures
        decreases_to!(s => ss.selections@),
{
    assert(decreases_to!(s => s.selections));
    assert(decreases_to!(s.selections => s.selections->0));
    assert(decreases_to!(s.selections->0 => s.selections->0.selections));
    assert(decreases_to!(ss.selections => ss.selections@));
}

impl Selection {
    /// The child selections of this node, empty when the selection list is
    /// absent.
    pub open spec fn spec_children(self) -> Seq<Selection> {
        match self.selections {
            Some(ss) => ss.selections@,
            None => Seq::empty(),
        }
    }

    /// The profiles of this node, empty when the profile list is absent.
    pub open spec fn spec_profiles(self) -> Seq<Profile> {
        match self.profiles {
            Some(ps) => ps.profiles@,
            None => Seq::empty(),
        }
    }

    /// The categories of this node, empty when the category list is absent.
    pub open spec fn spec_categories(self) -> Seq<Category> {
        match self.categories {
            Some(cs) => cs.categories@,
            None => Seq::empty(),
        }
    }

    /// The rules of this node, empty when the rule list is absent.
    pub open spec fn spec_rules(self) -> Seq<Rule> {
        match self.rules {
            Some(rs) => rs.rules@,
            None => Seq::empty(),
        }
    }

    /// The cost records of this node, empty when the cost list is absent.
    pub open spec fn spec_costs(self) -> Seq<Cost> {
        match self.costs {
            Some(cs) => cs.costs@,
            None => Seq::empty(),
        }
    }
}

} // verus!
