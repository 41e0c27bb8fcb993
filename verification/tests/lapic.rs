use hypatia::lapic::{broadcast_init_value, broadcast_sipi_value, ipi_value, sipi_value,
    DeliveryMode, DestinationMode, DestinationShorthand, Level, TriggerMode, ICR};
use hypatia::ProcessorID;

#[test]
fn fixed() {
    let icr = ICR(0).with_vector(0xFE).with_delivery_mode(DeliveryMode::Fixed).with_destination(2);
    assert_eq!(icr.0, 0x0000_0002_0000_00fe);
}

#[test]
fn fixed_shorthand() {
    let icr = ICR(0)
        .with_vector(0xFE)
        .with_delivery_mode(DeliveryMode::Fixed)
        .with_destination_shorthand(Some(DestinationShorthand::AllButSelf));
    assert_eq!(icr.0, 0x0000_0000_000c_00fe);
}

#[test]
fn sipi() {
    let icr = ICR(0)
        .with_vector(0x1F)
        .with_delivery_mode(DeliveryMode::SIPI)
        .with_destination_mode(DestinationMode::Logical)
        .with_level(Level::Assert)
        .with_destination_shorthand(None)
        .with_trigger_mode(TriggerMode::Edge)
        .with_destination_shorthand(None)
        .with_destination(0x1F);
    assert_eq!(0x0000_001f_0000_4e1f, icr.0);
}

#[test]
fn parse_sipi() {
    let icr = ICR(0x0000_001f_0000_4e2f);
    assert_eq!(icr.vector(), 0x2F);
    assert!(matches!(icr.delivery_mode(), Ok(DeliveryMode::SIPI)));
    assert!(matches!(icr.destination_mode(), DestinationMode::Logical));
    assert!(matches!(icr.level(), Level::Assert));
    assert!(matches!(icr.destination_shorthand(), None));
    assert!(matches!(icr.trigger_mode(), TriggerMode::Edge));
    assert!(matches!(icr.destination(), 0x1F));
}

#[test]
fn parse_bad_delivery_mode() {
    let icr = ICR(0x0000_001f_0000_4f2f);
    assert_eq!(icr.vector(), 0x2F);
    assert!(matches!(icr.delivery_mode(), Err(0b111)));
    assert!(matches!(icr.destination_mode(), DestinationMode::Logical));
    assert!(matches!(icr.level(), Level::Assert));
    assert!(matches!(icr.destination_shorthand(), None));
    assert!(matches!(icr.trigger_mode(), TriggerMode::Edge));
    assert!(matches!(icr.destination(), 0x1F));
}

#[test]
fn parse_with_some_shorthand() {
    let icr = ICR(0x0000_0000_000c_4f2f);
    assert_eq!(icr.vector(), 0x2F);
    assert!(matches!(icr.delivery_mode(), Err(0b111)));
    assert!(matches!(icr.destination_mode(), DestinationMode::Logical));
    assert!(matches!(icr.level(), Level::Assert));
    assert!(matches!(icr.destination_shorthand(), Some(DestinationShorthand::AllButSelf)));
    assert!(matches!(icr.trigger_mode(), TriggerMode::Edge));
    assert!(matches!(icr.destination(), 0));
}

#[test]
fn prepared_icr_values() {
    assert_eq!(broadcast_init_value().0, 0x000C_0500);
    assert_eq!(broadcast_sipi_value(7).0, 0x000C_0607);
    assert_eq!(sipi_value(ProcessorID(3), 7).0, 0x0000_0003_0000_0607);
    assert_eq!(ipi_value(ProcessorID(2), 0xFE).0, 0x0000_0002_0000_00FE);
}
