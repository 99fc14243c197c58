use mcuboot_sim::boot::boot_go;
use mcuboot_sim::flash::{SimFlash, SimMultiFlash};
use mcuboot_sim::loader::{AreaDesc, BootRsp, LoaderScript, LoaderStep};
use mcuboot_sim::registry::FlashRegistry;

/// A deterministic scenario: erase the trailer region, write the image, then
/// write the trailer in two operations.  Four flash operations in all.
fn scenario() -> (FlashRegistry, SimMultiFlash, AreaDesc, LoaderScript) {
    let mut multiflash = SimMultiFlash::new();
    multiflash.insert(0, SimFlash::new(64));

    let steps = vec![
        LoaderStep::Erase { dev_id: 0, offset: 32, len: 32 },
        LoaderStep::Write { dev_id: 0, offset: 0, data: vec![1, 2, 3, 4] },
        LoaderStep::Write { dev_id: 0, offset: 48, data: vec![0xAA, 0x55] },
        LoaderStep::Write { dev_id: 0, offset: 56, data: vec![0x77] },
    ];
    let script = LoaderScript {
        steps,
        result: 0,
        resp: BootRsp { flash_dev_id: 0, image_off: 0, br_hdr: vec![1, 2, 3, 4] },
    };
    (FlashRegistry::new(), multiflash, AreaDesc::new(), script)
}

fn byte_at(multiflash: &SimMultiFlash, dev_id: u8, off: usize) -> u8 {
    multiflash.get(dev_id).expect("device present").read_byte(off)
}

#[test]
fn unlimited_budget_runs_to_completion() {
    let (mut registry, mut multiflash, areadesc, script) = scenario();
    let mut counter: Option<i32> = None;
    let r = boot_go(&mut registry, &mut multiflash, &areadesc, &script, &mut counter, true);
    assert!(!r.interrupted());
    assert!(r.success());
    assert!(r.success_no_asserts());
    assert_eq!(r.asserts(), 0);
    assert!(counter.is_none());

    let resp = r.resp().expect("normal outcome carries a response");
    assert_eq!(resp.flash_dev_id, 0);
    assert_eq!(resp.image_off, 0);
    assert_eq!(resp.br_hdr, vec![1, 2, 3, 4]);

    // Image and complete trailer on flash.
    assert_eq!(byte_at(&multiflash, 0, 0), 1);
    assert_eq!(byte_at(&multiflash, 0, 3), 4);
    assert_eq!(byte_at(&multiflash, 0, 48), 0xAA);
    assert_eq!(byte_at(&multiflash, 0, 49), 0x55);
    assert_eq!(byte_at(&multiflash, 0, 56), 0x77);
}

#[test]
fn budget_one_short_stops_with_partial_trailer() {
    let (mut registry, mut multiflash, areadesc, script) = scenario();
    // Four operations are needed; allow three.
    let mut counter: Option<i32> = Some(3);
    let r = boot_go(&mut registry, &mut multiflash, &areadesc, &script, &mut counter, true);
    assert!(r.interrupted());
    assert!(!r.success());
    assert!(r.resp().is_none());
    assert_eq!(counter, Some(0));

    // The image and the first half of the trailer made it to flash; the
    // second trailer write never ran, so its bytes still read as erased.
    assert_eq!(byte_at(&multiflash, 0, 0), 1);
    assert_eq!(byte_at(&multiflash, 0, 48), 0xAA);
    assert_eq!(byte_at(&multiflash, 0, 49), 0x55);
    assert_eq!(byte_at(&multiflash, 0, 56), 0xFF);
}

#[test]
fn budget_sweep_has_monotonic_threshold() {
    for budget in 0..=6 {
        let (mut registry, mut multiflash, areadesc, script) = scenario();
        let mut counter: Option<i32> = Some(budget);
        let r = boot_go(&mut registry, &mut multiflash, &areadesc, &script, &mut counter, true);
        if budget < 4 {
            assert!(r.interrupted(), "budget {} should interrupt", budget);
            assert_eq!(counter, Some(0));
        } else {
            assert!(r.success(), "budget {} should complete", budget);
            assert_eq!(counter, Some(budget - 4));
        }
    }
}

#[test]
fn zero_budget_stops_before_any_operation() {
    let (mut registry, mut multiflash, areadesc, script) = scenario();
    let mut counter: Option<i32> = Some(0);
    let r = boot_go(&mut registry, &mut multiflash, &areadesc, &script, &mut counter, true);
    assert!(r.interrupted());
    assert_eq!(counter, Some(0));
    // Nothing ran: the device is still fully erased.
    assert_eq!(byte_at(&multiflash, 0, 0), 0xFF);
    assert_eq!(byte_at(&multiflash, 0, 48), 0xFF);
}

#[test]
fn empty_script_completes_under_zero_budget() {
    let mut multiflash = SimMultiFlash::new();
    multiflash.insert(3, SimFlash::new(8));
    let script = LoaderScript {
        steps: Vec::new(),
        result: 0,
        resp: BootRsp { flash_dev_id: 3, image_off: 0, br_hdr: Vec::new() },
    };
    let mut registry = FlashRegistry::new();
    let mut counter: Option<i32> = Some(0);
    let r = boot_go(&mut registry, &mut multiflash, &AreaDesc::new(), &script, &mut counter, true);
    assert!(r.success());
    assert_eq!(counter, Some(0));
}

#[test]
fn nonzero_result_code_is_normal_but_not_success() {
    let (mut registry, mut multiflash, areadesc, mut script) = scenario();
    script.result = 7;
    let mut counter: Option<i32> = None;
    let r = boot_go(&mut registry, &mut multiflash, &areadesc, &script, &mut counter, true);
    assert!(!r.interrupted());
    assert!(!r.success());
    assert!(!r.success_no_asserts());
    assert!(r.resp().is_some());
}

#[test]
fn intercepted_assertions_are_tallied() {
    let mut multiflash = SimMultiFlash::new();
    multiflash.insert(0, SimFlash::new(16));
    let script = LoaderScript {
        steps: vec![
            LoaderStep::Assert,
            LoaderStep::Write { dev_id: 0, offset: 0, data: vec![9] },
            LoaderStep::Assert,
        ],
        result: 0,
        resp: BootRsp { flash_dev_id: 0, image_off: 0, br_hdr: Vec::new() },
    };
    let mut registry = FlashRegistry::new();
    let mut counter: Option<i32> = None;
    let r = boot_go(&mut registry, &mut multiflash, &AreaDesc::new(), &script, &mut counter, true);
    assert!(r.success());
    assert!(!r.success_no_asserts());
    assert_eq!(r.asserts(), 2);
}

#[test]
fn interruption_discards_the_assert_tally() {
    let mut multiflash = SimMultiFlash::new();
    multiflash.insert(0, SimFlash::new(16));
    let script = LoaderScript {
        steps: vec![
            LoaderStep::Assert,
            LoaderStep::Write { dev_id: 0, offset: 0, data: vec![9] },
            LoaderStep::Write { dev_id: 0, offset: 8, data: vec![9] },
        ],
        result: 0,
        resp: BootRsp { flash_dev_id: 0, image_off: 0, br_hdr: Vec::new() },
    };
    let mut registry = FlashRegistry::new();
    // One operation allowed of the two needed: the assertion fires before the
    // interruption, but a stopped outcome reports a zero tally.
    let mut counter: Option<i32> = Some(1);
    let r = boot_go(&mut registry, &mut multiflash, &AreaDesc::new(), &script, &mut counter, true);
    assert!(r.interrupted());
    assert_eq!(r.asserts(), 0);
}

#[test]
fn registry_is_clean_after_any_outcome() {
    for &budget in &[None, Some(2), Some(10)] {
        let (mut registry, mut multiflash, areadesc, script) = scenario();
        // A binding of an unrelated invocation survives untouched.
        registry.bind(7, SimFlash::new(8));
        let mut counter = budget;
        let _ = boot_go(&mut registry, &mut multiflash, &areadesc, &script, &mut counter, true);
        assert!(!registry.is_bound(0), "device slot left bound");
        assert!(registry.is_bound(7), "unrelated binding lost");
    }
}

#[test]
fn devices_come_back_across_two_devices() {
    let mut multiflash = SimMultiFlash::new();
    multiflash.insert(0, SimFlash::new(16));
    multiflash.insert(1, SimFlash::new(16));
    let script = LoaderScript {
        steps: vec![
            LoaderStep::Write { dev_id: 0, offset: 0, data: vec![5] },
            LoaderStep::Write { dev_id: 1, offset: 2, data: vec![6] },
        ],
        result: 0,
        resp: BootRsp { flash_dev_id: 1, image_off: 2, br_hdr: vec![6] },
    };
    let mut registry = FlashRegistry::new();
    let mut counter: Option<i32> = None;
    let r = boot_go(&mut registry, &mut multiflash, &AreaDesc::new(), &script, &mut counter, true);
    assert!(r.success());
    assert_eq!(byte_at(&multiflash, 0, 0), 5);
    assert_eq!(byte_at(&multiflash, 1, 2), 6);
    let resp = r.resp().expect("response");
    assert_eq!(resp.flash_dev_id, 1);
    assert_eq!(resp.image_off, 2);
}
