// Board tables run the constructors once at bring-up. These tests call the
// checked constructors on bad entries to show each reject path fires with
// its own message.

use core::time::Duration;
use openprot::config::{
    assert_retry_reaches_every_image, check_retry_reaches_every_image, BootCheckpoint, DeviceConfig, Golden, ImageLayout, Region,
    Slot, SlotId, TableError,
};

/// Slots are one megabyte each; the values only have to be distinct and
/// non-overlapping.
const SLOT_LEN: u32 = 0x10_0000;

fn leak<T>(items: Vec<T>) -> &'static [T] {
    Box::leak(items.into_boxed_slice())
}

/// Unwraps a checked constructor, panicking with the broken rule's message.
fn build<T>(r: Result<T, TableError>) -> T {
    match r {
        Ok(v) => v,
        Err(e) => panic!("{}", e.message()),
    }
}

fn boot_complete() -> BootCheckpoint<u8> {
    BootCheckpoint::new("boot-complete", 0, Duration::from_secs(1))
}

/// Same name, different signal: each checkpoint is individually valid, so
/// the pair only trips the device-level duplicate check.
fn boot_complete_duplicate_name() -> BootCheckpoint<u8> {
    BootCheckpoint::new("boot-complete", 1, Duration::from_secs(1))
}

/// An ordinary slot, placed by id so two of them never overlap by accident.
fn slot(id: u8) -> Slot {
    Slot::new(SlotId(id), Region::new(id as u32 * SLOT_LEN, SLOT_LEN))
}

/// The golden image, above every slot `slot` can place.
fn golden() -> Golden {
    Golden::new(Region::new(0xF000_0000, SLOT_LEN))
}

fn layout() -> ImageLayout {
    ImageLayout::new(leak(vec![slot(0), slot(1)]), golden())
}

#[test]
fn lib_accepts_a_valid_table() {
    let device = DeviceConfig::new("dev", 0u8, leak(vec![boot_complete()]), Some(layout()));
    assert_eq!(device.name(), "dev");
    assert_eq!(*device.reset_signal(), 0);
    assert_eq!(device.checkpoints().len(), 1);
    assert_eq!(device.checkpoints()[0].name(), "boot-complete");
    assert_eq!(*device.checkpoints()[0].signal(), 0);
    assert_eq!(device.checkpoints()[0].timeout(), Duration::from_secs(1));

    let layout = device.layout().expect("declared above");
    assert_eq!(layout.slots().len(), 2);
    assert_eq!(layout.slots()[1].region().base(), SLOT_LEN);
    assert_eq!(layout.slots()[1].region().end(), 2 * SLOT_LEN);
    assert_eq!(layout.golden().region().base(), 0xF000_0000);
}

/// A device that owns its own images declares no layout at all, golden
/// included: the eRoT never addresses a byte range for it.
#[test]
fn accepts_a_device_without_a_layout() {
    let device = DeviceConfig::new("dev", 0u8, leak(vec![boot_complete()]), None);
    assert!(device.layout().is_none());
}

/// The golden image may be a device's only image.
#[test]
fn accepts_a_layout_with_no_slots() {
    let layout = ImageLayout::new(leak(vec![]), golden());
    assert!(layout.slots().is_empty());
}

#[test]
#[should_panic(expected = "checkpoint names must be unique")]
fn rejects_duplicate_checkpoint_names() {
    let _ = build(DeviceConfig::try_new(
        "dev",
        0u8,
        leak(vec![boot_complete(), boot_complete_duplicate_name()]),
        None,
    ));
}

#[test]
#[should_panic(expected = "device name must not be empty")]
fn lib_rejects_an_empty_device_name() {
    let _ = build(DeviceConfig::try_new("", 0u8, leak(vec![boot_complete()]), None));
}

#[test]
#[should_panic(expected = "at least one boot checkpoint")]
fn lib_rejects_an_empty_checkpoint_list() {
    let _ = build(DeviceConfig::try_new("dev", 0u8, leak(Vec::<BootCheckpoint<u8>>::new()), None));
}

#[test]
#[should_panic(expected = "slot ids must be unique")]
fn rejects_duplicate_slot_ids() {
    let _ = build(ImageLayout::try_new(
        leak(vec![
            Slot::new(SlotId(0), Region::new(0, SLOT_LEN)),
            Slot::new(SlotId(0), Region::new(SLOT_LEN, SLOT_LEN)),
        ]),
        golden(),
    ));
}

#[test]
#[should_panic(expected = "slots must not overlap")]
fn rejects_overlapping_slots() {
    let _ = build(ImageLayout::try_new(
        leak(vec![
            Slot::new(SlotId(0), Region::new(0, SLOT_LEN)),
            Slot::new(SlotId(1), Region::new(SLOT_LEN - 1, SLOT_LEN)),
        ]),
        golden(),
    ));
}

#[test]
#[should_panic(expected = "must not overlap the golden image")]
fn rejects_a_slot_overlapping_the_golden_image() {
    let _ = build(ImageLayout::try_new(
        leak(vec![Slot::new(SlotId(0), Region::new(0xF000_0000, SLOT_LEN))]),
        golden(),
    ));
}

/// Regions that touch do not overlap: `end` is one past the last byte.
#[test]
fn accepts_adjacent_regions() {
    let layout = ImageLayout::new(
        leak(vec![
            Slot::new(SlotId(0), Region::new(0, SLOT_LEN)),
            Slot::new(SlotId(1), Region::new(SLOT_LEN, SLOT_LEN)),
        ]),
        golden(),
    );
    assert_eq!(layout.slots()[0].region().end(), layout.slots()[1].region().base());
}

#[test]
fn counts_every_slot_and_the_golden_image() {
    assert_eq!(layout().image_count(), 3);
    assert_eq!(ImageLayout::new(leak(vec![]), golden()).image_count(), 1);
}

/// Two slots and a golden image need four attempts: three restores plus
/// the one the last restore would otherwise never get.
#[test]
fn accepts_a_retry_budget_that_boots_the_golden_image() {
    let devices = [DeviceConfig::new("dev", 0u8, leak(vec![boot_complete()]), Some(layout()))];
    build(check_retry_reaches_every_image(4, &devices));
    assert_retry_reaches_every_image(4, &devices);
}

/// A device with no layout has no images to step through, so any budget
/// covers it.
#[test]
fn accepts_any_retry_budget_for_a_device_without_a_layout() {
    let devices = [DeviceConfig::new("dev", 0u8, leak(vec![boot_complete()]), None)];
    build(check_retry_reaches_every_image(0, &devices));
    assert_retry_reaches_every_image(0, &devices);
}

/// Three attempts restore the golden image and stop before booting it.
#[test]
#[should_panic(expected = "max_retry is too small")]
fn rejects_a_retry_budget_that_never_boots_the_golden_image() {
    let devices = [DeviceConfig::new("dev", 0u8, leak(vec![boot_complete()]), Some(layout()))];
    build(check_retry_reaches_every_image(3, &devices));
    assert_retry_reaches_every_image(3, &devices);
}

#[test]
#[should_panic(expected = "region length must not be zero")]
fn rejects_a_zero_length_region() {
    let _ = build(Region::try_new(0, 0));
}

#[test]
#[should_panic(expected = "must not run past the end of the offset space")]
fn rejects_a_region_past_the_end_of_the_offset_space() {
    let _ = build(Region::try_new(u32::MAX, 1));
}

#[test]
#[should_panic(expected = "checkpoint name must not be empty")]
fn lib_rejects_an_empty_checkpoint_name() {
    let _ = build(BootCheckpoint::try_new("", 0u8, Duration::from_secs(1)));
}

#[test]
#[should_panic(expected = "checkpoint timeout must not be zero")]
fn rejects_a_zero_checkpoint_timeout() {
    let _ = build(BootCheckpoint::try_new("boot-complete", 0u8, Duration::ZERO));
}

#[test]
fn checked_constructors_name_the_first_broken_rule() {
    assert_eq!(
        BootCheckpoint::try_new("", 0u8, Duration::ZERO).err(),
        Some(TableError::EmptyCheckpointName)
    );
    assert_eq!(Region::try_new(0, 0).err(), Some(TableError::ZeroLengthRegion));
    assert_eq!(Region::try_new(u32::MAX - 1, 1).map(|r| r.end()), Ok(u32::MAX));
    // A slot overlapping the golden image is reported before a duplicate id.
    let bad = leak(vec![
        Slot::new(SlotId(0), Region::new(0xF000_0000, 1)),
        Slot::new(SlotId(0), Region::new(0, 1)),
    ]);
    assert_eq!(ImageLayout::try_new(bad, golden()).err(), Some(TableError::SlotOverlapsGolden));
    assert_eq!(
        DeviceConfig::try_new("", 0u8, leak(Vec::<BootCheckpoint<u8>>::new()), None).err(),
        Some(TableError::EmptyDeviceName)
    );
}

#[test]
fn checked_constructors_accept_what_the_rules_allow() {
    let c = BootCheckpoint::try_new("kernel", 3u8, Duration::from_millis(500)).unwrap();
    assert_eq!(c.name(), "kernel");
    assert_eq!(*c.signal(), 3);
    assert_eq!(c.timeout(), Duration::from_millis(500));
    let r = Region::try_new(16, 16).unwrap();
    assert_eq!((r.base(), r.len(), r.end()), (16, 16, 32));
    let l = ImageLayout::try_new(leak(vec![slot(0), slot(1)]), golden()).unwrap();
    assert_eq!(l.image_count(), 3);
    assert_eq!(l.slots()[1].id(), SlotId(1));
    let d = DeviceConfig::try_new(
        "nic",
        3u8,
        leak(vec![
            BootCheckpoint::new("mctp-ready", 0u8, Duration::from_secs(20)),
            BootCheckpoint::new("heartbeat", 1u8, Duration::from_secs(10)),
        ]),
        None,
    )
    .unwrap();
    assert_eq!(d.checkpoints().len(), 2);
    assert_eq!(TableError::RetryTooSmall.message(), "max_retry is too small to boot every image of a device");
}
