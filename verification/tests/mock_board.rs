use core::time::Duration;
use openprot::config::{
    assert_retry_reaches_every_image, check_retry_reaches_every_image, BootCheckpoint, DeviceConfig, Golden, ImageLayout, Region,
    Slot, SlotId,
};
use openprot::mock_board::{validate_signals, MockSignal, MAX_RETRY};

fn leak<T>(items: Vec<T>) -> &'static [T] {
    Box::leak(items.into_boxed_slice())
}

/// The mock board's table: a direct-flash BMC with A/B slots and a golden
/// image behind one GPIO checkpoint, and a self-updating NIC with two
/// message-path checkpoints and no layout.
fn managed_devices() -> Vec<DeviceConfig<u8, MockSignal>> {
    let bmc_layout = ImageLayout::new(
        leak(vec![
            Slot::new(SlotId(0), Region::new(0x00_0000, 0x20_0000)),
            Slot::new(SlotId(1), Region::new(0x20_0000, 0x20_0000)),
        ]),
        Golden::new(Region::new(0x40_0000, 0x20_0000)),
    );
    vec![
        DeviceConfig::new(
            "bmc",
            7,
            leak(vec![BootCheckpoint::new("boot-complete", MockSignal::Gpio(12), Duration::from_secs(90))]),
            Some(bmc_layout),
        ),
        DeviceConfig::new(
            "nic",
            3,
            leak(vec![
                BootCheckpoint::new("mctp-ready", MockSignal::MctpReady, Duration::from_secs(20)),
                BootCheckpoint::new("heartbeat", MockSignal::Heartbeat, Duration::from_secs(10)),
            ]),
            None,
        ),
    ]
}

#[test]
fn the_mock_table_passes_its_board_checks() {
    let devices = managed_devices();
    assert_eq!(validate_signals(&devices), Ok(()));
    assert_eq!(check_retry_reaches_every_image(MAX_RETRY, &devices), Ok(()));
    assert_retry_reaches_every_image(MAX_RETRY, &devices);
    assert!(check_retry_reaches_every_image(MAX_RETRY - 1, &devices).is_err());
}

#[test]
fn a_gpio_outside_the_bank_is_refused() {
    let devices = [DeviceConfig::new(
        "bmc",
        7u8,
        leak(vec![
            BootCheckpoint::new("early", MockSignal::Heartbeat, Duration::from_secs(1)),
            BootCheckpoint::new("late", MockSignal::Gpio(32), Duration::from_secs(1)),
        ]),
        None,
    )];
    let err = validate_signals(&devices).unwrap_err();
    assert_eq!(err.message(), "gpio signal names a line outside the bank");
    let edge = [DeviceConfig::new(
        "bmc",
        7u8,
        leak(vec![BootCheckpoint::new("early", MockSignal::Gpio(31), Duration::from_secs(1))]),
        None,
    )];
    assert_eq!(validate_signals(&edge), Ok(()));
}
