use loadstone::led::{Chromatic, LogicLevel, MockPin, MonochromeLed, OutputPin, RgbLed, RgbPalette, Toggle};

#[test]
fn monochrome_led_defaults_to_logic_low_with_direct_logic() {
    let led = MonochromeLed::new(MockPin::default(), LogicLevel::Direct);
    assert!(led.pin().is_low());
}

#[test]
fn monochrome_led_defaults_to_logic_high_with_inverted_logic() {
    let led = MonochromeLed::new(MockPin::default(), LogicLevel::Inverted);
    assert!(led.pin().is_high());
}

#[test]
fn monochrome_pin_setting() {
    let mut led = MonochromeLed::new(MockPin::default(), LogicLevel::Direct);
    led.off();
    assert!(led.pin().is_low());
    led.on();
    assert!(led.pin().is_high());
}

#[test]
fn monochrome_pin_toggling() {
    let mut led = MonochromeLed::new(MockPin::default(), LogicLevel::Direct);
    led.toggle();
    assert!(led.pin().is_high());
    led.toggle();
    assert!(led.pin().is_low());
}

#[test]
fn type_erasure_between_chromatic_and_non_chromatic_led() {
    let mut monochrome = MonochromeLed::new(MockPin::default(), LogicLevel::Inverted);
    let mut chromatic =
        RgbLed::new(MockPin::default(), MockPin::default(), MockPin::default(), LogicLevel::Direct);

    chromatic.color(RgbPalette::Red);

    let mut array: [&mut dyn Toggle; 2] = [&mut monochrome, &mut chromatic];
    array.iter_mut().for_each(|l| l.toggle());

    assert!(monochrome.pin().is_low());
    assert!(chromatic.pin(RgbPalette::Red).is_high());
    assert!(chromatic.pin(RgbPalette::Green).is_low());
    assert!(chromatic.pin(RgbPalette::Blue).is_low());
}

#[test]
fn rgb_led_shines_only_the_chosen_color() {
    let mut led = RgbLed::new(MockPin::default(), MockPin::default(), MockPin::default(), LogicLevel::Direct);
    assert!(!led.is_on());
    led.on();
    assert!(led.get_color().is_green());
    assert!(led.pin(RgbPalette::Green).is_high());
    assert!(led.pin(RgbPalette::Red).is_low());
    led.color(RgbPalette::Blue);
    led.toggle();
    assert!(led.get_color().is_blue());
    assert!(!led.is_on());
    assert!(led.pin(RgbPalette::Blue).is_low());
    assert!(led.pin(RgbPalette::Green).is_low());
}

#[test]
fn inverted_rgb_led_drives_unlit_pins_high() {
    let mut led = RgbLed::new(MockPin::default(), MockPin::default(), MockPin::default(), LogicLevel::Inverted);
    assert!(led.pin(RgbPalette::Red).is_high());
    led.on();
    assert!(led.pin(RgbPalette::Green).is_low());
    assert!(led.pin(RgbPalette::Red).is_high());
}
