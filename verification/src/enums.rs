//! Wire enums of the factory protocol, with their numeric codes.
use vstd::prelude::*;

verus! {

/// Kind of a factory building.
#[derive(Debug, Clone, Copy, PartialEq, Eq, Structural)]
pub enum FCNodeType {
    Inventory,
    Bus,
    Hub,
    Collector,
    Producer,
    BoxConveyor,
    BoxRouterM1,
    BusUnloader,
    BusLoader,
    BurnPower,
    PowerPole,
    PowerSave,
    DepositBox,
    HealTower,
    TravelPole,
    BoxBridge,
    Special,
    PowerTerminal,
    PowerPort,
    PowerGate,
}

/// The node type with wire code `t`, if any.
pub open spec fn node_type_of_code(t: i32) -> Option<FCNodeType> {
    if t == 1 {
        Some(FCNodeType::Inventory)
    } else if t == 2 {
        Some(FCNodeType::Bus)
    } else if t == 3 {
        Some(FCNodeType::Hub)
    } else if t == 4 {
        Some(FCNodeType::Collector)
    } else if t == 5 {
        Some(FCNodeType::Producer)
    } else if t == 6 {
        Some(FCNodeType::BoxConveyor)
    } else if t == 7 {
        Some(FCNodeType::BoxRouterM1)
    } else if t == 8 {
        Some(FCNodeType::BusUnloader)
    } else if t == 9 {
        Some(FCNodeType::BusLoader)
    } else if t == 10 {
        Some(FCNodeType::BurnPower)
    } else if t == 11 {
        Some(FCNodeType::PowerPole)
    } else if t == 12 {
        Some(FCNodeType::PowerSave)
    } else if t == 13 {
        Some(FCNodeType::DepositBox)
    } else if t == 14 {
        Some(FCNodeType::HealTower)
    } else if t == 15 {
        Some(FCNodeType::TravelPole)
    } else if t == 16 {
        Some(FCNodeType::BoxBridge)
    } else if t == 17 {
        Some(FCNodeType::Special)
    } else if t == 18 {
        Some(FCNodeType::PowerTerminal)
    } else if t == 19 {
        Some(FCNodeType::PowerPort)
    } else if t == 20 {
        Some(FCNodeType::PowerGate)
    } else {
        None
    }
}

impl FCNodeType {
    pub open spec fn spec_code(self) -> i32 {
        match self {
            FCNodeType::Inventory => 1,
            FCNodeType::Bus => 2,
            FCNodeType::Hub => 3,
            FCNodeType::Collector => 4,
            FCNodeType::Producer => 5,
            FCNodeType::BoxConveyor => 6,
            FCNodeType::BoxRouterM1 => 7,
            FCNodeType::BusUnloader => 8,
            FCNodeType::BusLoader => 9,
            FCNodeType::BurnPower => 10,
            FCNodeType::PowerPole => 11,
            FCNodeType::PowerSave => 12,
            FCNodeType::DepositBox => 13,
            FCNodeType::HealTower => 14,
            FCNodeType::TravelPole => 15,
            FCNodeType::BoxBridge => 16,
            FCNodeType::Special => 17,
            FCNodeType::PowerTerminal => 18,
            FCNodeType::PowerPort => 19,
            FCNodeType::PowerGate => 20,
        }
    }

    /// The wire code of this node type.
    #[verifier::when_used_as_spec(spec_code)]
    pub fn code(self) -> (r: i32)
        ensures
            r == self.spec_code(),
    {
        match self {
            FCNodeType::Inventory => 1,
            FCNodeType::Bus => 2,
            FCNodeType::Hub => 3,
            FCNodeType::Collector => 4,
            FCNodeType::Producer => 5,
            FCNodeType::BoxConveyor => 6,
            FCNodeType::BoxRouterM1 => 7,
            FCNodeType::BusUnloader => 8,
            FCNodeType::BusLoader => 9,
            FCNodeType::BurnPower => 10,
            FCNodeType::PowerPole => 11,
            FCNodeType::PowerSave => 12,
            FCNodeType::DepositBox => 13,
            FCNodeType::HealTower => 14,
            FCNodeType::TravelPole => 15,
            FCNodeType::BoxBridge => 16,
            FCNodeType::Special => 17,
            FCNodeType::PowerTerminal => 18,
            FCNodeType::PowerPort => 19,
            FCNodeType::PowerGate => 20,
        }
    }
}

/// Facing of a building on the grid.
#[derive(Debug, Clone, Copy, PartialEq, Eq, Structural)]
pub enum FCDirection {
    Up,
    Right,
    Down,
    Left,
}

impl FCDirection {
    pub open spec fn spec_code(self) -> i32 {
        match self {
            FCDirection::Up => 0,
            FCDirection::Right => 1,
            FCDirection::Down => 2,
            FCDirection::Left => 3,
        }
    }

    /// The wire code of this direction.
    #[verifier::when_used_as_spec(spec_code)]
    pub fn code(self) -> (r: i32)
        ensures
            r == self.spec_code(),
    {
        match self {
            FCDirection::Up => 0,
            FCDirection::Right => 1,
            FCDirection::Down => 2,
            FCDirection::Left => 3,
        }
    }
}

/// Shape of a node's mesh.
#[derive(Debug, Clone, Copy, PartialEq, Eq, Structural)]
pub enum FCMeshType {
    Rect,
    Line,
}

/// Kind of a link between two nodes.
#[derive(Debug, Clone, Copy, PartialEq, Eq, Structural)]
pub enum FCConnectionType {
    Power,
    Travel,
}

impl FCConnectionType {
    pub open spec fn spec_code(self) -> i32 {
        match self {
            FCConnectionType::Power => 0,
            FCConnectionType::Travel => 1,
        }
    }

    /// The wire code of this link kind.
    #[verifier::when_used_as_spec(spec_code)]
    pub fn code(self) -> (r: i32)
        ensures
            r == self.spec_code(),
    {
        match self {
            FCConnectionType::Power => 0,
            FCConnectionType::Travel => 1,
        }
    }
}

/// Port kind at the ends of a link.
#[derive(Debug, Clone, Copy, PartialEq, Eq, Structural)]
pub enum FCConnectionPortType {
    PowerPole,
    Hub,
}

/// Named slot under which a node exposes one of its components.
#[derive(Debug, Clone, Copy, PartialEq, Eq, Structural)]
pub enum FCComponentPos {
    Hub,
    BusLoader,
    PowerPole,
    PowerSave,
    StablePower,
    Selector,
    Inventory,
    BurnPower,
    Producer,
    Collector,
    HealTower,
    TravelPole,
    GridBox1,
}

/// Type tag of a component on the wire, in the order of the component
/// variants.
#[derive(Debug, Clone, Copy, PartialEq, Eq, Structural)]
pub enum FCComponentType {
    Transform,
    Bus,
    Inventory,
    Cache,
    Selector,
    Collector,
    Producer,
    FormulaMan,
    BoxConveyor,
    BoxRouterM1,
    BusUnloader,
    BusLoader,
    Hub,
    BurnPower,
    PowerPole,
    PowerSave,
    GridBox,
    HealTower,
    CacheTransport,
    StablePower,
    TravelPole,
    BoxBridge,
    SpecialDesc,
}

impl FCComponentType {
    pub open spec fn spec_code(self) -> i32 {
        match self {
            FCComponentType::Transform => 0,
            FCComponentType::Bus => 1,
            FCComponentType::Inventory => 2,
            FCComponentType::Cache => 3,
            FCComponentType::Selector => 4,
            FCComponentType::Collector => 5,
            FCComponentType::Producer => 6,
            FCComponentType::FormulaMan => 7,
            FCComponentType::BoxConveyor => 8,
            FCComponentType::BoxRouterM1 => 9,
            FCComponentType::BusUnloader => 10,
            FCComponentType::BusLoader => 11,
            FCComponentType::Hub => 12,
            FCComponentType::BurnPower => 13,
            FCComponentType::PowerPole => 14,
            FCComponentType::PowerSave => 15,
            FCComponentType::GridBox => 16,
            FCComponentType::HealTower => 17,
            FCComponentType::CacheTransport => 18,
            FCComponentType::StablePower => 19,
            FCComponentType::TravelPole => 20,
            FCComponentType::BoxBridge => 21,
            FCComponentType::SpecialDesc => 22,
        }
    }

    /// The wire code of this component type.
    #[verifier::when_used_as_spec(spec_code)]
    pub fn code(self) -> (r: i32)
        ensures
            r == self.spec_code(),
    {
        match self {
            FCComponentType::Transform => 0,
            FCComponentType::Bus => 1,
            FCComponentType::Inventory => 2,
            FCComponentType::Cache => 3,
            FCComponentType::Selector => 4,
            FCComponentType::Collector => 5,
            FCComponentType::Producer => 6,
            FCComponentType::FormulaMan => 7,
            FCComponentType::BoxConveyor => 8,
            FCComponentType::BoxRouterM1 => 9,
            FCComponentType::BusUnloader => 10,
            FCComponentType::BusLoader => 11,
            FCComponentType::Hub => 12,
            FCComponentType::BurnPower => 13,
            FCComponentType::PowerPole => 14,
            FCComponentType::PowerSave => 15,
            FCComponentType::GridBox => 16,
            FCComponentType::HealTower => 17,
            FCComponentType::CacheTransport => 18,
            FCComponentType::StablePower => 19,
            FCComponentType::TravelPole => 20,
            FCComponentType::BoxBridge => 21,
            FCComponentType::SpecialDesc => 22,
        }
    }
}

} // verus!
