//! Widget interaction properties: the set of active interaction states a
//! widget is in (hover, pressed, ...), and the handler that applies
//! property-change events to that set. Style resolution maps a property
//! set to concrete style values (see the style module).

use vstd::prelude::*;

verus! {

/// One interaction state a widget can be in.
#[derive(Clone, Copy, PartialEq, Eq, Structural, PartialOrd, Ord, Hash, Debug)]
pub enum Property {
    Hover,
    Activated,
    Selected,
    Pressed,
    Inactive,
}

/// A set of active interaction properties, one flag per property.
#[derive(Clone, Copy, PartialEq, Eq, Structural, Debug)]
pub struct PropSet {
    pub hover: bool,
    pub activated: bool,
    pub selected: bool,
    pub pressed: bool,
    pub inactive: bool,
}

impl PropSet {
    pub open spec fn spec_has(self, p: Property) -> bool {
        match p {
            Property::Hover => self.hover,
            Property::Activated => self.activated,
            Property::Selected => self.selected,
            Property::Pressed => self.pressed,
            Property::Inactive => self.inactive,
        }
    }

    pub open spec fn spec_insert(self, p: Property) -> PropSet {
        match p {
            Property::Hover => PropSet { hover: true, ..self },
            Property::Activated => PropSet { activated: true, ..self },
            Property::Selected => PropSet { selected: true, ..self },
            Property::Pressed => PropSet { pressed: true, ..self },
            Property::Inactive => PropSet { inactive: true, ..self },
        }
    }

    pub open spec fn spec_remove(self, p: Property) -> PropSet {
        match p {
            Property::Hover => PropSet { hover: false, ..self },
            Property::Activated => PropSet { activated: false, ..self },
            Property::Selected => PropSet { selected: false, ..self },
            Property::Pressed => PropSet { pressed: false, ..self },
            Property::Inactive => PropSet { inactive: false, ..self },
        }
    }

    /// The set with no active property: a widget's default state.
    pub fn new() -> (s: PropSet)
        ensures
            s == (PropSet {
                hover: false,
                activated: false,
                selected: false,
                pressed: false,
                inactive: false,
            }),
    {
        PropSet { hover: false, activated: false, selected: false, pressed: false, inactive: false }
    }

    pub fn contains(&self, p: Property) -> (b: bool)
        ensures
            b == self.spec_has(p),
    {
        match p {
            Property::Hover => self.hover,
            Property::Activated => self.activated,
            Property::Selected => self.selected,
            Property::Pressed => self.pressed,
            Property::Inactive => self.inactive,
        }
    }

    pub fn insert(&mut self, p: Property)
        ensures
            *final(self) == old(self).spec_insert(p),
    {
        match p {
            Property::Hover => self.hover = true,
            Property::Activated => self.activated = true,
            Property::Selected => self.selected = true,
            Property::Pressed => self.pressed = true,
            Property::Inactive => self.inactive = true,
        }
    }

    pub fn remove(&mut self, p: Property)
        ensures
            *final(self) == old(self).spec_remove(p),
    {
        match p {
            Property::Hover => self.hover = false,
            Property::Activated => self.activated = false,
            Property::Selected => self.selected = false,
            Property::Pressed => self.pressed = false,
            Property::Inactive => self.inactive = false,
        }
    }
}

/// A change to a widget's property set.
#[derive(Clone, Copy, Debug)]
pub enum PropChange {
    Add(Property),
    Remove(Property),
}

/// Applies property-change events to a widget's property set. After a
/// change the host re-resolves the widget's style against the new set.
pub struct PropChangeHandler;

impl PropChangeHandler {
    pub fn handle(&mut self, event: &PropChange, props: &mut PropSet)
        ensures
            *final(props) == match *event {
                PropChange::Add(p) => old(props).spec_insert(p),
                PropChange::Remove(p) => old(props).spec_remove(p),
            },
    {
        match *event {
            PropChange::Add(p) => props.insert(p),
            PropChange::Remove(p) => props.remove(p),
        }
    }
}

} // verus!
