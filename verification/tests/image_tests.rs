use shipc::err::ErrorKind;
use shipc::image::{classify_image, has_tar_gz_suffix, ImageForm};

#[test]
fn tgz_file_is_not_a_tarball() {
    let e = classify_image(false, true, &b"x.tgz".to_vec()).err().unwrap();
    assert_eq!(e.kind, ErrorKind::User);
    assert_eq!(e.message, "File is not a tarball");
}

#[test]
fn tar_gz_file_is_an_archive() {
    let f = classify_image(false, true, &b"image.tar.gz".to_vec()).ok().unwrap();
    assert_eq!(f, ImageForm::Archive);
}

#[test]
fn directory_is_used_directly() {
    let f = classify_image(true, false, &b"whatever".to_vec()).ok().unwrap();
    assert_eq!(f, ImageForm::Directory);
}

#[test]
fn other_file_type_is_invalid() {
    let e = classify_image(false, false, &b"dev".to_vec()).err().unwrap();
    assert_eq!(e.kind, ErrorKind::User);
    assert_eq!(e.message, "Image path is invalid");
}

#[test]
fn suffix_check_is_exact() {
    assert!(has_tar_gz_suffix(&b"a.tar.gz".to_vec()));
    assert!(!has_tar_gz_suffix(&b".tar.g".to_vec()));
    assert!(!has_tar_gz_suffix(&b"tar.gz".to_vec()));
    assert!(has_tar_gz_suffix(&b".tar.gz".to_vec()));
    assert!(!has_tar_gz_suffix(&b"a.tar.gz.bak".to_vec()));
    assert!(!has_tar_gz_suffix(&b"".to_vec()));
}
