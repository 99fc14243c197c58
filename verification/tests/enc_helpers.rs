use mcuboot_sim::enc::{kw_buffer, kw_encrypt, rsa_oaep_buffer, rsa_oaep_encrypt};

#[test]
fn rsa_oaep_success_returns_256_bytes() {
    let buf = rsa_oaep_buffer();
    assert_eq!(buf.len(), 256);
    let out = rsa_oaep_encrypt(buf, 0).expect("status zero is success");
    assert_eq!(out.len(), 256);
}

#[test]
fn rsa_oaep_failure_status_is_an_error() {
    let buf = rsa_oaep_buffer();
    let err = rsa_oaep_encrypt(buf, 5).unwrap_err();
    assert_eq!(err, "Failed to encrypt buffer");
}

#[test]
fn kw_wraps_128_bit_key_into_24_bytes() {
    let buf = kw_buffer(128);
    assert_eq!(buf.len(), 24);
    let out = kw_encrypt(128, buf, 0).expect("status zero is success");
    assert_eq!(out.len(), 24);
}

#[test]
fn kw_wraps_256_bit_key_into_40_bytes() {
    let buf = kw_buffer(256);
    assert_eq!(buf.len(), 40);
    let out = kw_encrypt(256, buf, 0).expect("status zero is success");
    assert_eq!(out.len(), 40);
}

#[test]
fn kw_failure_status_is_an_error() {
    let buf = kw_buffer(256);
    let err = kw_encrypt(256, buf, -1).unwrap_err();
    assert_eq!(err, "Failed to encrypt buffer");
}

#[test]
fn kw_buffers_are_zeroed() {
    assert!(kw_buffer(128).iter().all(|&b| b == 0));
    assert!(kw_buffer(256).iter().all(|&b| b == 0));
    assert!(rsa_oaep_buffer().iter().all(|&b| b == 0));
}
