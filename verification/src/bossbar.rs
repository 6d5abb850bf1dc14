//! The boss-bar style enumerations and their wire values. The bar itself —
//! title text, health fraction, packet plumbing — lives with the network
//! layer; these are the parts with defined numeric meaning.

use vstd::prelude::*;

verus! {

/// The color of a boss bar.
#[derive(Clone, Copy, PartialEq, Eq, Structural, Debug)]
pub enum BossbarColor {
    Pink,
    Blue,
    Red,
    Green,
    Yellow,
    Purple,
    White,
}

impl BossbarColor {
    /// The wire value of the color, in declaration order.
    pub fn value(&self) -> (r: u8)
        ensures
            r == match self {
                BossbarColor::Pink => 0u8,
                BossbarColor::Blue => 1u8,
                BossbarColor::Red => 2u8,
                BossbarColor::Green => 3u8,
                BossbarColor::Yellow => 4u8,
                BossbarColor::Purple => 5u8,
                BossbarColor::White => 6u8,
            },
    {
        match self {
            BossbarColor::Pink => 0,
            BossbarColor::Blue => 1,
            BossbarColor::Red => 2,
            BossbarColor::Green => 3,
            BossbarColor::Yellow => 4,
            BossbarColor::Purple => 5,
            BossbarColor::White => 6,
        }
    }
}

/// How a boss bar is divided into notches.
#[derive(Clone, Copy, PartialEq, Eq, Structural, Debug)]
pub enum BossbarDivisions {
    NoDivision,
    Notches6,
    Notches10,
    Notches12,
    Notches20,
}

impl BossbarDivisions {
    /// The wire value of the division style, in declaration order.
    pub fn value(&self) -> (r: u8)
        ensures
            r == match self {
                BossbarDivisions::NoDivision => 0u8,
                BossbarDivisions::Notches6 => 1u8,
                BossbarDivisions::Notches10 => 2u8,
                BossbarDivisions::Notches12 => 3u8,
                BossbarDivisions::Notches20 => 4u8,
            },
    {
        match self {
            BossbarDivisions::NoDivision => 0,
            BossbarDivisions::Notches6 => 1,
            BossbarDivisions::Notches10 => 2,
            BossbarDivisions::Notches12 => 3,
            BossbarDivisions::Notches20 => 4,
        }
    }
}

/// The flag bits of a boss bar.
#[derive(Clone, Copy, PartialEq, Eq, Structural, Debug)]
pub enum BossbarFlags {
    NoFlags,
    DarkenSky,
    DragonBar,
    CreateFog,
}

impl BossbarFlags {
    /// The wire bit of the flag: no flags is 0, and each effect has its own
    /// bit.
    pub fn value(&self) -> (r: u8)
        ensures
            r == match self {
                BossbarFlags::NoFlags => 0u8,
                BossbarFlags::DarkenSky => 1u8,
                BossbarFlags::DragonBar => 2u8,
                BossbarFlags::CreateFog => 4u8,
            },
    {
        match self {
            BossbarFlags::NoFlags => 0,
            BossbarFlags::DarkenSky => 1,
            BossbarFlags::DragonBar => 2,
            BossbarFlags::CreateFog => 4,
        }
    }
}

} // verus!
