use archive::digest::to_lower_hex;
use archive::download::{verify_digest, Download, HashingWriter, WritePoll};
use archive::error::ArchiveError;

const EMPTY: &str = "e3b0c44298fc1c149afbf4c8996fb92427ae41e4649b934ca495991b7852b855";
const ABC: &str = "ba7816bf8f01cfea414140de5dae2223b00361a396177a9cb410ff61f20015ad";
const TWO_BLOCKS: &str = "248d6a61d20638b8e5c026930c3e6039a33ce45964ff2167f6ecedd419db06c1";
const TWO_BLOCKS_MESSAGE: &[u8] = b"abcdbcdecdefdefgefghfghighijhijkijkljklmklmnlmnomnopnopq";
const URL: &str = "https://example.com/tool.tar.gz";

#[test]
fn hexadecimal_text_is_lowercase() {
    assert_eq!(to_lower_hex(&[0x00, 0x09, 0x0a, 0x1f, 0xa0, 0xff]), "00090a1fa0ff");
    assert_eq!(to_lower_hex(&[]), "");
    for byte in 0..=255u8 {
        assert_eq!(to_lower_hex(&[byte]), format!("{byte:02x}"));
    }
}

#[test]
fn digests_of_known_messages() {
    assert_eq!(HashingWriter::new().digest_text(), EMPTY);
    let mut writer = HashingWriter::new();
    writer.record_write(b"abc", WritePoll::Ready(3));
    assert_eq!(writer.digest_text(), ABC);
    let mut writer = HashingWriter::new();
    writer.record_write(TWO_BLOCKS_MESSAGE, WritePoll::Ready(TWO_BLOCKS_MESSAGE.len()));
    assert_eq!(writer.digest_text(), TWO_BLOCKS);
}

#[test]
fn only_what_was_written_is_hashed() {
    let mut writer = HashingWriter::new();
    assert_eq!(writer.record_write(b"abxx", WritePoll::Ready(2)), WritePoll::Ready(2));
    assert_eq!(writer.record_write(b"c", WritePoll::Pending), WritePoll::Pending);
    assert_eq!(writer.record_write(b"c", WritePoll::Failed), WritePoll::Failed);
    assert_eq!(writer.record_write(b"c", WritePoll::Ready(0)), WritePoll::Ready(0));
    assert_eq!(writer.record_write(b"c", WritePoll::Ready(1)), WritePoll::Ready(1));
    assert_eq!(writer.digest_text(), ABC);
}

#[test]
fn pieces_make_no_difference() {
    for size in 1..TWO_BLOCKS_MESSAGE.len() {
        let mut writer = HashingWriter::new();
        for piece in TWO_BLOCKS_MESSAGE.chunks(size) {
            assert!(writer.has_room(piece.len()));
            writer.record_write(piece, WritePoll::Ready(piece.len()));
        }
        assert_eq!(writer.digest_text(), TWO_BLOCKS);
    }
}

#[test]
fn matching_download_is_accepted() {
    let mut download = Download::begin(URL, Some(ABC));
    download.record_write(b"ab", WritePoll::Ready(2));
    download.record_write(b"c", WritePoll::Ready(1));
    assert_eq!(download.finish(), Ok(()));
}

#[test]
fn mismatching_download_is_refused() {
    let mut download = Download::begin(URL, Some(ABC));
    download.record_write(b"abc", WritePoll::Ready(2));
    assert_eq!(
        download.finish(),
        Err(ArchiveError::DigestMismatch {
            url: URL.to_owned(),
            expected: ABC.to_owned(),
            actual: "fb8e20fc2e4c3f248c60c39bd652f3c1347298bb977b8b4d5903b85055620603".to_owned(),
        })
    );
}

#[test]
fn uppercase_digest_is_refused() {
    let mut download = Download::begin(URL, Some(&ABC.to_uppercase()));
    download.record_write(b"abc", WritePoll::Ready(3));
    assert!(matches!(download.finish(), Err(ArchiveError::DigestMismatch { .. })));
}

#[test]
fn unchecked_download_is_accepted() {
    let mut download = Download::begin(URL, None);
    assert!(download.has_room(usize::MAX));
    assert_eq!(download.record_write(b"anything", WritePoll::Ready(8)), WritePoll::Ready(8));
    assert_eq!(download.finish(), Ok(()));
}

#[test]
fn messages_have_a_longest_length() {
    let mut writer = HashingWriter::new();
    assert!(writer.has_room(0x1fff_ffff_ffff_ffff));
    assert!(!writer.has_room(0x2000_0000_0000_0000));
    writer.record_write(b"a", WritePoll::Ready(1));
    assert!(!writer.has_room(0x1fff_ffff_ffff_ffff));
    assert!(!Download::begin(URL, Some(ABC)).has_room(usize::MAX));
}

#[test]
fn digests_are_compared_as_text() {
    assert_eq!(verify_digest(URL, ABC, ABC.to_owned()), Ok(()));
    assert_eq!(
        verify_digest(URL, ABC, EMPTY.to_owned()),
        Err(ArchiveError::DigestMismatch {
            url: URL.to_owned(),
            expected: ABC.to_owned(),
            actual: EMPTY.to_owned(),
        })
    );
}
