use nous_memory::error::Error;
use nous_memory::objects::{
    check_content, content_address, object_key, StreamVerifier, StreamingUpload, UploadMeter,
};

const EMPTY_DIGEST: &str = "af1349b9f5f9a1a6a0404dea36dcc9499bcb25c9adc112b7cc9a93cae41f3262";
const ABC_DIGEST: &str = "6437b3ac38465133ffb63b75273a8db548c558465d79db03fd359c6cd5bd9d85";

#[test]
fn object_key_prefixes_the_digest() {
    let key = object_key(ABC_DIGEST).expect("valid digest");
    assert_eq!(key, format!("64/{ABC_DIGEST}"));
}

#[test]
fn object_key_refuses_malformed_digests() {
    assert!(matches!(object_key("abc"), Err(Error::Invalid(_))));
    assert!(matches!(object_key(&ABC_DIGEST.to_uppercase()), Err(Error::Invalid(_))));
    let mut long = ABC_DIGEST.to_string();
    long.push('0');
    assert!(matches!(object_key(&long), Err(Error::Invalid(_))));
    let bad = format!("{}g", &ABC_DIGEST[..63]);
    assert!(matches!(object_key(&bad), Err(Error::Invalid(_))));
}

#[test]
fn content_address_is_the_blake3_digest() {
    let (hash, key) = content_address(b"");
    assert_eq!(hash, EMPTY_DIGEST);
    assert_eq!(key, format!("af/{EMPTY_DIGEST}"));
    let (hash, key) = content_address(b"abc");
    assert_eq!(hash, ABC_DIGEST);
    assert_eq!(key, format!("64/{ABC_DIGEST}"));
}

#[test]
fn content_check_detects_changed_bytes() {
    assert!(check_content(b"abc", ABC_DIGEST).is_ok());
    assert!(matches!(check_content(b"abd", ABC_DIGEST), Err(Error::Infrastructure(_))));
}

#[test]
fn upload_meter_enforces_its_limit() {
    assert!(matches!(UploadMeter::new(0), Err(Error::Invalid(_))));
    let mut meter = UploadMeter::new(10).expect("positive limit");
    assert_eq!(meter.size(), 0);
    assert!(meter.accept(4).is_ok());
    assert_eq!(meter.size(), 4);
    assert!(matches!(meter.accept(7), Err(Error::Invalid(_))));
    assert_eq!(meter.size(), 4);
    assert!(meter.accept(6).is_ok());
    assert_eq!(meter.size(), 10);
    assert!(meter.accept(0).is_ok());
    assert!(meter.accept(1).is_err());
    assert!(meter.accept(usize::MAX).is_err());
    assert_eq!(meter.size(), 10);
}

#[test]
fn streamed_uploads_hash_their_concatenated_chunks() {
    assert!(matches!(StreamingUpload::new(0), Err(Error::Invalid(_))));
    let mut upload = StreamingUpload::new(3).expect("positive limit");
    assert!(upload.accept(b"ab").is_ok());
    assert!(matches!(upload.accept(b"cd"), Err(Error::Invalid(_))));
    assert!(upload.accept(b"c").is_ok());
    let (hash, key, size) = upload.finish();
    assert_eq!(hash, ABC_DIGEST);
    assert_eq!(key, format!("64/{ABC_DIGEST}"));
    assert_eq!(size, 3);
    let empty = StreamingUpload::new(1).expect("positive limit");
    assert_eq!(empty.finish().0, EMPTY_DIGEST);
}

#[test]
fn streamed_reads_are_verified_at_the_end() {
    let mut verifier = StreamVerifier::new(ABC_DIGEST);
    verifier.feed(b"a");
    verifier.feed(b"");
    verifier.feed(b"bc");
    assert!(verifier.finish().is_ok());
    let mut tampered = StreamVerifier::new(ABC_DIGEST);
    tampered.feed(b"abC");
    assert!(matches!(tampered.finish(), Err(Error::Infrastructure(_))));
}
