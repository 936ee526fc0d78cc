use airlog::logic::display::{InfoType, TempUnit};
use airlog::peripherals::button::EdgeDetector;

#[test]
fn it_works() {
    assert!(true)
}

#[test]
fn pages_alternate() {
    assert_eq!(InfoType::GasesAndTemp.next(), InfoType::GasesAndParticles);
    assert_eq!(InfoType::GasesAndParticles.next(), InfoType::GasesAndTemp);
    assert_eq!(InfoType::GasesAndTemp.next().next(), InfoType::GasesAndTemp);
}

#[test]
fn unit_symbols() {
    assert_eq!(TempUnit::Kelvin.get_symbol(), "K");
    assert_eq!(TempUnit::Celsius.get_symbol(), "°C");
    assert_eq!(TempUnit::Fahrenheit.get_symbol(), "°F");
}

#[test]
fn units_cycle() {
    assert_eq!(TempUnit::Celsius.next(), TempUnit::Fahrenheit);
    assert_eq!(TempUnit::Fahrenheit.next(), TempUnit::Kelvin);
    assert_eq!(TempUnit::Kelvin.next(), TempUnit::Celsius);
    assert_eq!(TempUnit::Celsius.next().next().next(), TempUnit::Celsius);
}

#[test]
fn release_is_detected_once() {
    let mut detector = EdgeDetector::new();
    assert!(!detector.check_rising_edge(false));
    assert!(!detector.check_rising_edge(true));
    assert!(!detector.check_rising_edge(true));
    assert!(detector.check_rising_edge(false));
    assert!(!detector.check_rising_edge(false));
    assert!(!detector.check_rising_edge(true));
    assert!(detector.check_rising_edge(false));
}
