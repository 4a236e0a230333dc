//! Checking a download against the digest that is expected of it.

use crate::archive_dir::verdict_view;
use crate::digest::{
    hashed_bytes, hasher_finalize, hasher_new, hasher_update, law_lower_hex_is_injective, lower_hex,
    sha256, to_lower_hex, Hasher, MAX_MESSAGE_BYTES,
};
use crate::error::{ArchiveError, SpecError};
use vstd::prelude::*;

verus! {

/// What came of trying to write a buffer.
#[derive(Clone, Copy, Debug, PartialEq, Eq)]
pub enum WritePoll {
    /// Nothing was written yet.
    Pending,
    /// The write failed.
    Failed,
    /// This many bytes from the front of the buffer were written.
    Ready(usize),
}

/// The bytes of `buffer` that were written.
pub open spec fn written_bytes(buffer: Seq<u8>, poll: WritePoll) -> Seq<u8> {
    match poll {
        WritePoll::Ready(count) => buffer.take(count as int),
        _ => seq![],
    }
}

/// What a written download comes to: it is what was expected, or it is refused.
pub open spec fn digest_verdict(url: Seq<char>, expected: Seq<char>, actual: Seq<char>) -> Result<
    (),
    SpecError,
> {
    if actual == expected {
        Ok(())
    } else {
        Err(SpecError::DigestMismatch { url, expected, actual })
    }
}

/// Compares the digest of a download with the one that is expected.
pub fn verify_digest(url: &str, expected: &str, actual: String) -> (verdict: Result<
    (),
    ArchiveError,
>)
    ensures
        verdict_view(verdict) == digest_verdict(url@, expected@, actual@),
{
    let expected = expected.to_owned();
    if actual == expected {
        Ok(())
    } else {
        Err(ArchiveError::DigestMismatch { url: url.to_owned(), expected, actual })
    }
}

/// Hashes what is written, as it is written.
pub struct HashingWriter {
    hasher: Hasher,
    length: u64,
}

impl View for HashingWriter {
    type V = Seq<u8>;

    /// The bytes that have been written.
    closed spec fn view(&self) -> Seq<u8> {
        hashed_bytes(self.hasher)
    }
}

impl HashingWriter {
    /// Whether the writer knows how much has been written, and could hash it.
    pub closed spec fn is_valid(self) -> bool {
        self.length == self@.len() && self.length <= MAX_MESSAGE_BYTES
    }

    /// A writer to which nothing has been written.
    pub fn new() -> (writer: HashingWriter)
        ensures
            writer.is_valid(),
            writer@ == Seq::<u8>::empty(),
    {
        HashingWriter { hasher: hasher_new(), length: 0 }
    }

    /// Whether `count` more bytes can still be hashed.
    pub fn has_room(&self, count: usize) -> (room: bool)
        requires
            self.is_valid(),
        ensures
            room == (self@.len() + count <= MAX_MESSAGE_BYTES),
    {
        count as u64 <= MAX_MESSAGE_BYTES - self.length
    }

    /// Takes note of what came of trying to write `buffer`, and passes it on: what was
    /// written is hashed.
    pub fn record_write(&mut self, buffer: &[u8], poll: WritePoll) -> (passed_on: WritePoll)
        requires
            old(self).is_valid(),
            poll matches WritePoll::Ready(count) ==> count <= buffer@.len() && old(self)@.len()
                + count <= MAX_MESSAGE_BYTES,
        ensures
            final(self).is_valid(),
            final(self)@ == old(self)@ + written_bytes(buffer@, poll),
            passed_on == poll,
    {
        if let WritePoll::Ready(count) = poll {
            let written = vstd::slice::slice_subrange(buffer, 0, count);
            assert(written@ =~= buffer@.take(count as int));
            hasher_update(&mut self.hasher, written);
            self.length = self.length + count as u64;
        } else {
            assert(old(self)@ + written_bytes(buffer@, poll) =~= old(self)@);
        }
        poll
    }

    /// The digest of what has been written, as text.
    pub fn digest_text(self) -> (text: String)
        requires
            self.is_valid(),
        ensures
            text@ == lower_hex(sha256(self@)),
            text@.len() == 64,
    {
        let digest = hasher_finalize(self.hasher);
        to_lower_hex(digest.as_slice())
    }
}

/// A download: where it comes from, and the check that it is to pass, if any.
pub struct Download {
    url: String,
    check: Option<DigestCheck>,
}

/// The digest that a download is to have, and what has been hashed of it.
struct DigestCheck {
    expected: String,
    writer: HashingWriter,
}

/// What a [`Download`] stands for.
pub struct SpecDownload {
    /// Where it comes from.
    pub url: Seq<char>,
    /// The digest it is to have, if one is known.
    pub expected: Option<Seq<char>>,
    /// What has been hashed: all that was written where a digest is known, and nothing
    /// otherwise.
    pub hashed: Seq<u8>,
}

impl View for Download {
    type V = SpecDownload;

    closed spec fn view(&self) -> SpecDownload {
        SpecDownload {
            url: self.url@,
            expected: match self.check {
                Some(check) => Some(check.expected@),
                None => None,
            },
            hashed: match self.check {
                Some(check) => check.writer@,
                None => seq![],
            },
        }
    }
}

/// A download that has just begun.
pub open spec fn begun(url: Seq<char>, expected: Option<Seq<char>>) -> SpecDownload {
    SpecDownload { url, expected, hashed: seq![] }
}

/// A download after some bytes were written: they count where a digest is known.
pub open spec fn after_write(download: SpecDownload, written: Seq<u8>) -> SpecDownload {
    if download.expected is Some {
        SpecDownload {
            url: download.url,
            expected: download.expected,
            hashed: download.hashed + written,
        }
    } else {
        download
    }
}

/// What a complete download comes to: without a digest to compare with, it is accepted.
pub open spec fn download_verdict(download: SpecDownload) -> Result<(), SpecError> {
    match download.expected {
        Some(expected) => digest_verdict(
            download.url,
            expected,
            lower_hex(sha256(download.hashed)),
        ),
        None => Ok(()),
    }
}

impl Download {
    /// Whether the download could still be hashed.
    pub closed spec fn is_valid(self) -> bool {
        self.check matches Some(check) ==> check.writer.is_valid()
    }

    /// Begins a download from `url`, which is to have the digest `digest` if one is given.
    pub fn begin(url: &str, digest: Option<&str>) -> (download: Download)
        ensures
            download.is_valid(),
            download@ == begun(
                url@,
                match digest {
                    Some(expected) => Some(expected@),
                    None => None,
                },
            ),
    {
        let check = match digest {
            Some(expected) => Some(
                DigestCheck { expected: expected.to_owned(), writer: HashingWriter::new() },
            ),
            None => None,
        };
        Download { url: url.to_owned(), check }
    }

    /// Whether what came of a write can still be taken note of.
    pub fn has_room(&self, count: usize) -> (room: bool)
        requires
            self.is_valid(),
        ensures
            room == (self@.expected is Some ==> self@.hashed.len() + count <= MAX_MESSAGE_BYTES),
    {
        match &self.check {
            Some(check) => check.writer.has_room(count),
            None => true,
        }
    }

    /// Takes note of what came of trying to write `buffer`, and passes it on.
    pub fn record_write(&mut self, buffer: &[u8], poll: WritePoll) -> (passed_on: WritePoll)
        requires
            old(self).is_valid(),
            poll matches WritePoll::Ready(count) ==> {
                &&& count <= buffer@.len()
                &&& old(self)@.expected is Some ==> old(self)@.hashed.len() + count
                    <= MAX_MESSAGE_BYTES
            },
        ensures
            final(self).is_valid(),
            final(self)@ == after_write(old(self)@, written_bytes(buffer@, poll)),
            passed_on == poll,
    {
        match &mut self.check {
            Some(check) => check.writer.record_write(buffer, poll),
            None => poll,
        }
    }

    /// Ends the download: accepts or refuses what was written.
    pub fn finish(self) -> (verdict: Result<(), ArchiveError>)
        requires
            self.is_valid(),
        ensures
            verdict_view(verdict) == download_verdict(self@),
    {
        match self.check {
            Some(check) => verify_digest(
                self.url.as_str(),
                check.expected.as_str(),
                check.writer.digest_text(),
            ),
            None => Ok(()),
        }
    }
}

/// A download after a whole series of writes.
pub open spec fn after_writes(
    download: SpecDownload,
    writes: Seq<(Seq<u8>, WritePoll)>,
) -> SpecDownload
    decreases writes.len(),
{
    if writes.len() == 0 {
        download
    } else {
        after_write(
            after_writes(download, writes.drop_last()),
            written_bytes(writes.last().0, writes.last().1),
        )
    }
}

/// Everything that a series of writes wrote.
pub open spec fn all_written(writes: Seq<(Seq<u8>, WritePoll)>) -> Seq<u8>
    decreases writes.len(),
{
    if writes.len() == 0 {
        seq![]
    } else {
        all_written(writes.drop_last()) + written_bytes(writes.last().0, writes.last().1)
    }
}

/// What a writer has hashed after a whole series of writes, when it had hashed `before`.
pub open spec fn hashed_after(before: Seq<u8>, writes: Seq<(Seq<u8>, WritePoll)>) -> Seq<u8>
    decreases writes.len(),
{
    if writes.len() == 0 {
        before
    } else {
        hashed_after(before, writes.drop_last()) + written_bytes(
            writes.last().0,
            writes.last().1,
        )
    }
}

/// A writer hashes precisely the bytes that were accepted, after those it had hashed: a
/// write that has to wait or fails adds nothing.
pub proof fn law_accepted_bytes_are_hashed(
    before: Seq<u8>,
    writes: Seq<(Seq<u8>, WritePoll)>,
)
    ensures
        hashed_after(before, writes) == before + all_written(writes),
        hashed_after(Seq::empty(), writes) == all_written(writes),
    decreases writes.len(),
{
    if writes.len() > 0 {
        law_accepted_bytes_are_hashed(before, writes.drop_last());
    }
    assert(hashed_after(before, writes) =~= before + all_written(writes));
    assert(hashed_after(Seq::empty(), writes) =~= all_written(writes));
}

/// A download that is to have a digest is accepted exactly if the SHA-256 digest of
/// everything that was written reads as that digest. How the bytes were cut into writes,
/// and how many writes had to wait or failed in between, makes no difference.
pub proof fn law_download_is_checked_as_a_whole(
    url: Seq<char>,
    expected: Seq<char>,
    writes: Seq<(Seq<u8>, WritePoll)>,
)
    ensures
        after_writes(begun(url, Some(expected)), writes) == (SpecDownload {
            url,
            expected: Some(expected),
            hashed: all_written(writes),
        }),
        download_verdict(after_writes(begun(url, Some(expected)), writes)) is Ok <==> lower_hex(
            sha256(all_written(writes)),
        ) == expected,
    decreases writes.len(),
{
    if writes.len() > 0 {
        law_download_is_checked_as_a_whole(url, expected, writes.drop_last());
    }
}

/// Where the expected text spells a digest, a download is accepted exactly if it has that
/// digest.
pub proof fn law_expected_digest_decides(
    url: Seq<char>,
    digest: Seq<u8>,
    writes: Seq<(Seq<u8>, WritePoll)>,
)
    ensures
        download_verdict(after_writes(begun(url, Some(lower_hex(digest))), writes)) is Ok
            <==> sha256(all_written(writes)) == digest,
{
    law_download_is_checked_as_a_whole(url, lower_hex(digest), writes);
    if lower_hex(sha256(all_written(writes))) == lower_hex(digest) {
        law_lower_hex_is_injective(sha256(all_written(writes)), digest);
    }
}

/// A download without a digest is accepted whatever was written.
pub proof fn law_unchecked_download_is_accepted(
    url: Seq<char>,
    writes: Seq<(Seq<u8>, WritePoll)>,
)
    ensures
        after_writes(begun(url, None), writes) == begun(url, None),
        download_verdict(after_writes(begun(url, None), writes)) == Ok::<(), SpecError>(()),
    decreases writes.len(),
{
    if writes.len() > 0 {
        law_unchecked_download_is_accepted(url, writes.drop_last());
    }
}

/// What was written of a buffer is as long as the count says, and is the front of the
/// buffer, byte by byte. A write that has to wait or fails wrote nothing.
pub proof fn law_write_takes_the_front(buffer: Seq<u8>, count: usize)
    requires
        count <= buffer.len(),
    ensures
        written_bytes(buffer, WritePoll::Ready(count)).len() == count,
        forall|i: int|
            0 <= i < count ==> #[trigger] written_bytes(buffer, WritePoll::Ready(count))[i]
                == buffer[i],
        written_bytes(buffer, WritePoll::Pending).len() == 0,
        written_bytes(buffer, WritePoll::Failed).len() == 0,
{
}

/// The complete writes of some pieces, one after the other.
pub open spec fn complete_writes(pieces: Seq<Seq<u8>>) -> Seq<(Seq<u8>, WritePoll)> {
    pieces.map_values(|piece: Seq<u8>| (piece, WritePoll::Ready(piece.len() as usize)))
}

/// However a message is cut into pieces, writing each of them completely writes the
/// message: all of it is hashed, whether the writer is asked or the download.
pub proof fn law_cutting_makes_no_difference(
    url: Seq<char>,
    expected: Seq<char>,
    pieces: Seq<Seq<u8>>,
)
    requires
        forall|i: int| 0 <= i < pieces.len() ==> (#[trigger] pieces[i]).len() <= usize::MAX,
    ensures
        hashed_after(Seq::empty(), complete_writes(pieces)) == pieces.flatten(),
        after_writes(begun(url, Some(expected)), complete_writes(pieces)).hashed
            == pieces.flatten(),
        download_verdict(after_writes(begun(url, Some(expected)), complete_writes(pieces)))
            is Ok <==> lower_hex(sha256(pieces.flatten())) == expected,
{
    lemma_complete_writes(pieces);
    law_accepted_bytes_are_hashed(Seq::empty(), complete_writes(pieces));
    law_download_is_checked_as_a_whole(url, expected, complete_writes(pieces));
}

/// Complete writes write all of their pieces.
proof fn lemma_complete_writes(pieces: Seq<Seq<u8>>)
    requires
        forall|i: int| 0 <= i < pieces.len() ==> (#[trigger] pieces[i]).len() <= usize::MAX,
    ensures
        all_written(complete_writes(pieces)) == pieces.flatten(),
    decreases pieces.len(),
{
    pieces.lemma_flatten_and_flatten_alt_are_equivalent();
    if pieces.len() > 0 {
        let (front, last) = (pieces.drop_last(), pieces.last());
        assert forall|i: int| 0 <= i < front.len() implies (#[trigger] front[i]).len()
            <= usize::MAX by {
            assert(front[i] == pieces[i]);
        }
        lemma_complete_writes(front);
        front.lemma_flatten_and_flatten_alt_are_equivalent();
        assert(complete_writes(pieces).drop_last() =~= complete_writes(front));
        assert(pieces[pieces.len() - 1] == last);
        assert(written_bytes(last, WritePoll::Ready(last.len() as usize)) =~= last);
    }
}

/// A checked download is accepted exactly if the two digests read the same, and is
/// otherwise refused with all that was compared. The digest that was found is that of what
/// was hashed.
pub proof fn law_refusal_names_both_digests(
    url: Seq<char>,
    expected: Seq<char>,
    hashed: Seq<u8>,
)
    ensures
        ({
            let found = lower_hex(sha256(hashed));
            let verdict = download_verdict(
                SpecDownload { url, expected: Some(expected), hashed },
            );
            &&& found == expected ==> verdict is Ok
            &&& found != expected ==> verdict == Err::<(), SpecError>(
                SpecError::DigestMismatch { url, expected, actual: found },
            )
        }),
        forall|actual: Seq<char>| #[trigger]
            digest_verdict(url, expected, actual) is Ok <==> actual == expected,
        forall|actual: Seq<char>|
            actual != expected ==> #[trigger] digest_verdict(url, expected, actual) == Err::<
                (),
                SpecError,
            >(SpecError::DigestMismatch { url, expected, actual }),
{
}

/// A download begins with nothing hashed. A checked one hashes every byte that is written,
/// after those before; the address and the expected digest never change.
pub proof fn law_download_keeps_what_it_checks(
    url: Seq<char>,
    expected: Option<Seq<char>>,
    hashed: Seq<u8>,
    written: Seq<u8>,
)
    ensures
        begun(url, expected).url == url,
        begun(url, expected).expected == expected,
        begun(url, expected).hashed.len() == 0,
        ({
            let after = after_write(SpecDownload { url, expected, hashed }, written);
            &&& after.url == url
            &&& after.expected == expected
            &&& expected is Some ==> {
                &&& after.hashed.len() == hashed.len() + written.len()
                &&& after.hashed.take(hashed.len() as int) == hashed
                &&& after.hashed.skip(hashed.len() as int) == written
            }
        }),
{
    assert((hashed + written).take(hashed.len() as int) =~= hashed);
    assert((hashed + written).skip(hashed.len() as int) =~= written);
}

} // verus!
