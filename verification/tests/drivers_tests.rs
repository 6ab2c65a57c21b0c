use loadstone::drivers::{baud_divisor, Bps, Clocks, Config, Hertz, Milliseconds, Parity, StopBits, Tick, WordLength};

#[test]
fn tick_differences_and_additions() {
    let sysclk_frequency = Hertz(2000);
    let ticks_difference = 1000u32;
    let test_tick_early = Tick::new(0, sysclk_frequency);
    let test_tick_late = Tick::new(0 + ticks_difference, sysclk_frequency);

    assert_eq!(Milliseconds(500), test_tick_late.sub(test_tick_early));

    let test_tick_late = test_tick_late.add(Milliseconds(300));

    assert_eq!(Milliseconds(800), test_tick_late.sub(test_tick_early));
}

#[test]
fn tick_differences_wrap_around() {
    let f = Hertz(1000);
    assert_eq!(Tick::new(5, f).sub(Tick::new(u32::MAX - 4, f)), Milliseconds(10));
}

#[test]
fn hardcoded_clocks() {
    let clocks = Clocks::hardcoded();
    assert_eq!(clocks.sysclk(), Hertz(50_000_000));
    assert_eq!(clocks.hclk(), Hertz(50_000_000));
    assert_eq!(clocks.pclk1(), Hertz(25_000_000));
    assert_eq!(clocks.pclk2(), Hertz(50_000_000));
}

#[test]
fn serial_configuration() {
    let config = Config::default();
    assert_eq!(config.baudrate, Bps(19_200));
    assert_eq!(config.wordlength, WordLength::DataBits8);
    assert_eq!(config.parity, Parity::ParityNone);
    assert_eq!(config.stopbits, StopBits::STOP1);
    let config = config.baudrate(Bps(115_200)).parity_odd().wordlength_9().stopbits(StopBits::STOP2);
    assert_eq!(config.frame_bits(), (true, true, true));
    assert_eq!(config.parity_even().frame_bits(), (true, true, false));
    assert_eq!(config.parity_none().wordlength_8().frame_bits(), (false, false, false));
}

#[test]
fn baud_divisor_rounds_to_nearest() {
    assert_eq!(baud_divisor(Hertz(25_000_000), Bps(115_200)), 217);
    assert_eq!(baud_divisor(Hertz(50_000_000), Bps(19_200)), 2604);
}
