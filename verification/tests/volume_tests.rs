use shipc::err::ErrorKind;
use shipc::volume::{parse_volume, validate_volumes};

#[test]
fn no_colon_fails_before_staging() {
    let r = parse_volume(&b"/a/b".to_vec());
    let e = r.err().unwrap();
    assert_eq!(e.kind, ErrorKind::User);
    assert_eq!(e.message, "Volume should be origin:destination");
    assert!(e.secondary.is_none());
}

#[test]
fn two_colons_fail() {
    let r = parse_volume(&b"/a:/b:/c".to_vec());
    assert!(r.is_err());
}

#[test]
fn empty_origin_fails() {
    assert!(parse_volume(&b":/data".to_vec()).is_err());
}

#[test]
fn empty_destination_fails() {
    assert!(parse_volume(&b"/data:".to_vec()).is_err());
}

#[test]
fn empty_string_fails() {
    assert!(parse_volume(&b"".to_vec()).is_err());
}

#[test]
fn valid_volume_splits() {
    let v = parse_volume(&b"/host/data:/data".to_vec()).ok().unwrap();
    assert_eq!(v.source, b"/host/data".to_vec());
    assert_eq!(v.destination, b"/data".to_vec());
}

#[test]
fn validate_volumes_accepts_all_good() {
    let args = vec![b"/a:/b".to_vec(), b"/c:/d".to_vec()];
    let vs = validate_volumes(&args).ok().unwrap();
    assert_eq!(vs.len(), 2);
    assert_eq!(vs[1].source, b"/c".to_vec());
}

#[test]
fn validate_volumes_rejects_one_bad() {
    let args = vec![b"/a:/b".to_vec(), b"/bad".to_vec()];
    let e = validate_volumes(&args).err().unwrap();
    assert_eq!(e.kind, ErrorKind::User);
    assert_eq!(e.message, "Volume should be origin:destination");
}
