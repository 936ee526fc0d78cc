//! What the display shows and in which unit.

use vstd::prelude::*;

verus! {

/// The two pages of the display.
#[derive(Debug, Copy, Clone, PartialEq, Eq, Structural)]
pub enum InfoType {
    /// CO2, VOC index, temperature and relative humidity.
    GasesAndTemp,
    /// CO2, VOC index, and PM2.5 and PM10 mass concentrations.
    GasesAndParticles,
}

impl InfoType {
    /// The other page.
    pub open spec fn other(self) -> InfoType {
        match self {
            InfoType::GasesAndTemp => InfoType::GasesAndParticles,
            InfoType::GasesAndParticles => InfoType::GasesAndTemp,
        }
    }

    /// The page that follows this one when the button is pressed.
    pub fn next(&self) -> (page: Self)
        ensures
            page == self.other(),
    {
        match self {
            Self::GasesAndTemp => Self::GasesAndParticles,
            Self::GasesAndParticles => Self::GasesAndTemp,
        }
    }
}

/// Pressing the button twice comes back to the same page.
pub proof fn lemma_two_pages(page: InfoType)
    ensures
        page.other().other() == page,
        page.other() != page,
{
}

/// The units in which a temperature is shown.
#[derive(Debug, Copy, Clone, PartialEq, Eq, Structural)]
pub enum TempUnit {
    Kelvin,
    Celsius,
    Fahrenheit,
}

impl TempUnit {
    /// The symbol of the unit.
    pub open spec fn symbol(self) -> Seq<char> {
        match self {
            TempUnit::Kelvin => "K"@,
            TempUnit::Celsius => "°C"@,
            TempUnit::Fahrenheit => "°F"@,
        }
    }

    /// The unit that a press of the button changes this one to.
    pub open spec fn successor(self) -> TempUnit {
        match self {
            TempUnit::Fahrenheit => TempUnit::Kelvin,
            TempUnit::Kelvin => TempUnit::Celsius,
            TempUnit::Celsius => TempUnit::Fahrenheit,
        }
    }

    /// The symbol of the unit: `K`, `°C` or `°F`.
    pub fn get_symbol(&self) -> (symbol: &'static str)
        ensures
            symbol@ == self.symbol(),
    {
        match self {
            TempUnit::Kelvin => "K",
            TempUnit::Celsius => "°C",
            TempUnit::Fahrenheit => "°F",
        }
    }

    /// The unit that follows this one when the button is pressed:
    /// Celsius, Fahrenheit, Kelvin, and Celsius again.
    pub fn next(&self) -> (unit: Self)
        ensures
            unit == self.successor(),
    {
        match self {
            TempUnit::Fahrenheit => TempUnit::Kelvin,
            TempUnit::Kelvin => TempUnit::Celsius,
            TempUnit::Celsius => TempUnit::Fahrenheit,
        }
    }
}

/// Three presses of the button come back to the same unit, and fewer do
/// not.
pub proof fn lemma_three_units(unit: TempUnit)
    ensures
        unit.successor().successor().successor() == unit,
        unit.successor() != unit,
        unit.successor().successor() != unit,
{
}

} // verus!
