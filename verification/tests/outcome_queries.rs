use mcuboot_sim::boot::BootGoResult;
use mcuboot_sim::loader::BootRsp;

fn rsp() -> BootRsp {
    BootRsp { flash_dev_id: 0, image_off: 128, br_hdr: vec![0x3D, 0xB8] }
}

#[test]
fn success_iff_normal_with_zero_result() {
    let ok = BootGoResult::Normal { result: 0, asserts: 3, resp: rsp() };
    assert!(ok.success());
    assert!(!ok.success_no_asserts());
    assert!(!ok.interrupted());

    let failed = BootGoResult::Normal { result: -22, asserts: 0, resp: rsp() };
    assert!(!failed.success());
    assert!(!failed.success_no_asserts());

    let stopped = BootGoResult::Stopped;
    assert!(!stopped.success());
    assert!(!stopped.success_no_asserts());
}

#[test]
fn success_no_asserts_needs_a_zero_tally() {
    let clean = BootGoResult::Normal { result: 0, asserts: 0, resp: rsp() };
    assert!(clean.success());
    assert!(clean.success_no_asserts());
}

#[test]
fn stopped_reports_no_asserts_and_no_response() {
    let stopped = BootGoResult::Stopped;
    assert!(stopped.interrupted());
    assert_eq!(stopped.asserts(), 0);
    assert!(stopped.resp().is_none());
}

#[test]
fn normal_reports_its_tally_and_response() {
    let r = BootGoResult::Normal { result: 4, asserts: 9, resp: rsp() };
    assert!(!r.interrupted());
    assert_eq!(r.asserts(), 9);
    let resp = r.resp().expect("response");
    assert_eq!(resp.flash_dev_id, 0);
    assert_eq!(resp.image_off, 128);
    assert_eq!(resp.br_hdr, vec![0x3D, 0xB8]);
}

#[test]
fn response_copy_is_owned_and_equal() {
    let source = rsp();
    let copy = source.duplicate();
    assert_eq!(copy.flash_dev_id, source.flash_dev_id);
    assert_eq!(copy.image_off, source.image_off);
    assert_eq!(copy.br_hdr, source.br_hdr);
}
