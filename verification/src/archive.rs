use vstd::prelude::*;
use vstd::slice::*;
use crate::errors::FetchError;

verus! {

/// The kind of one archive entry, read from its type flag.
#[derive(Debug, Clone, PartialEq, Eq)]
pub enum EntryKind {
    /// A regular file, with a byte payload.
    File,
    /// A directory.
    Directory,
    /// A symbolic link; its target stands in the entry's `link_target`.
    Symlink,
    /// Any other entry type (hard link, extension header, ...): decoded and
    /// carried through, but not applied to the destination tree.
    Other,
}

/// One decoded entry: a relative path, a kind, and — for regular files —
/// the byte payload.
#[derive(Debug, Clone, PartialEq, Eq)]
pub struct ArchiveEntry {
    pub path: Vec<u8>,
    pub kind: EntryKind,
    pub data: Vec<u8>,
    pub link_target: Vec<u8>,
}

/// The mathematical shape of one entry.
pub ghost struct EntryModel {
    pub path: Seq<u8>,
    pub kind: EntryKind,
    pub data: Seq<u8>,
    pub link_target: Seq<u8>,
}

impl View for ArchiveEntry {
    type V = EntryModel;

    open spec fn view(&self) -> EntryModel {
        EntryModel {
            path: self.path@,
            kind: self.kind,
            data: self.data@,
            link_target: self.link_target@,
        }
    }
}

/// The models of a sequence of decoded entries.
pub open spec fn models(v: Seq<ArchiveEntry>) -> Seq<EntryModel> {
    v.map_values(|e: ArchiveEntry| e@)
}

/// Every byte of `s` is zero.
pub open spec fn all_zero(s: Seq<u8>) -> bool {
    forall|i: int| 0 <= i < s.len() ==> s[i] == 0
}

/// `b` is an octal digit.
pub open spec fn oct_digit(b: u8) -> bool {
    48 <= b <= 55
}

/// The length of the leading run of octal digits of `s`.
pub open spec fn oct_len(s: Seq<u8>) -> int
    decreases s.len(),
{
    if s.len() == 0 {
        0
    } else if !oct_digit(s[0]) {
        0
    } else {
        1 + oct_len(s.drop_first())
    }
}

/// The value of `s` read as octal digits.
pub open spec fn oct_val(s: Seq<u8>) -> nat
    decreases s.len(),
{
    if s.len() == 0 {
        0
    } else {
        oct_val(s.drop_last()) * 8 + (s.last() - 48) as nat
    }
}

/// Eight to the `n`th.
pub open spec fn pow8(n: nat) -> nat
    decreases n,
{
    if n == 0 {
        1
    } else {
        8 * pow8((n - 1) as nat)
    }
}

/// The bytes of `s` before its first NUL (all of `s` when it has none).
pub open spec fn until_nul(s: Seq<u8>) -> Seq<u8>
    decreases s.len(),
{
    if s.len() == 0 {
        Seq::empty()
    } else if s[0] == 0 {
        Seq::empty()
    } else {
        seq![s[0]] + until_nul(s.drop_first())
    }
}

/// The kind a tar type flag names: `0` or NUL a regular file, `5` a
/// directory, `2` a symbolic link.
pub open spec fn kind_of(flag: u8) -> EntryKind {
    if flag == 48 || flag == 0 {
        EntryKind::File
    } else if flag == 53 {
        EntryKind::Directory
    } else if flag == 50 {
        EntryKind::Symlink
    } else {
        EntryKind::Other
    }
}

/// The size field of a 512-byte tar header block.
pub open spec fn size_field(b: Seq<u8>) -> Seq<u8> {
    b.subrange(124, 136)
}

/// A payload length rounded up to whole 512-byte blocks.
pub open spec fn padded_size(n: nat) -> nat {
    if n % 512 == 0 {
        n
    } else {
        (n + (512 - n % 512)) as nat
    }
}

/// The entry a header block `b` and its payload `data` describe: the path
/// is the name field up to its first NUL, the kind comes from the type
/// flag, and the link target from the linkname field.
pub open spec fn header_entry(b: Seq<u8>, data: Seq<u8>) -> EntryModel {
    EntryModel {
        path: until_nul(b.subrange(0, 100)),
        kind: kind_of(b[156]),
        data: data,
        link_target: until_nul(b.subrange(157, 257)),
    }
}

/// The entries a tar byte stream holds, or `None` when it is malformed.
/// The stream is a run of records — a 512-byte header block followed by the
/// payload padded to whole blocks — ended by running out of bytes or by an
/// all-zero block; a partial block or an unreadable size field is malformed.
pub open spec fn tar_entries(s: Seq<u8>) -> Option<Seq<EntryModel>>
    decreases s.len(),
{
    if s.len() == 0 {
        Some(Seq::empty())
    } else if s.len() < 512 {
        None
    } else if all_zero(s.take(512)) {
        Some(Seq::empty())
    } else {
        let b = s.take(512);
        let f = size_field(b);
        if oct_len(f) == 0 {
            None
        } else {
            let sz = oct_val(f.take(oct_len(f)));
            if s.len() < 512 + padded_size(sz) {
                None
            } else {
                match tar_entries(s.skip(512 + padded_size(sz) as int)) {
                    Some(es) => Some(seq![header_entry(b, s.subrange(512, 512 + sz as int))] + es),
                    None => None,
                }
            }
        }
    }
}

/// A run of octal digits ended as `k` says has `oct_len` equal to `k`.
proof fn lemma_oct_len(s: Seq<u8>, k: int)
    requires
        0 <= k <= s.len(),
        forall|j: int| 0 <= j < k ==> oct_digit(s[j]),
        k < s.len() ==> !oct_digit(s[k]),
    ensures
        oct_len(s) == k,
    decreases k,
{
    if s.len() == 0 {
    } else if k == 0 {
    } else {
        assert(oct_digit(s[0]));
        lemma_oct_len(s.drop_first(), k - 1);
    }
}

/// A NUL-free prefix ended as `k` says is what `until_nul` returns.
proof fn lemma_until_nul(s: Seq<u8>, k: int)
    requires
        0 <= k <= s.len(),
        forall|j: int| 0 <= j < k ==> s[j] != 0,
        k < s.len() ==> s[k] == 0,
    ensures
        until_nul(s) == s.take(k),
    decreases k,
{
    if s.len() == 0 {
        assert(until_nul(s) =~= s.take(k));
    } else if k == 0 {
        assert(until_nul(s) =~= s.take(k));
    } else {
        assert(s[0] != 0);
        lemma_until_nul(s.drop_first(), k - 1);
        assert(s.take(k) =~= seq![s[0]] + s.drop_first().take(k - 1));
    }
}

/// `pow8` grows with its argument.
proof fn lemma_pow8_le(i: nat, j: nat)
    requires
        i <= j,
    ensures
        pow8(i) <= pow8(j),
    decreases j,
{
    if i < j {
        lemma_pow8_le(i, (j - 1) as nat);
    }
}

/// Reads the twelve-byte numeric field as octal: the leading digit run is
/// the value; a field that starts with no digit is unreadable.
fn parse_size_field(f: &[u8]) -> (r: Option<u64>)
    requires
        f@.len() == 12,
    ensures
        r is Some <==> oct_len(f@) != 0,
        r matches Some(v) ==> v == oct_val(f@.take(oct_len(f@))) && v < pow8(12),
{
    let mut i: usize = 0;
    let mut acc: u64 = 0;
    proof {
        reveal_with_fuel(pow8, 13);
    }
    while i < 12 && 48 <= f[i] && f[i] <= 55
        invariant
            f@.len() == 12,
            0 <= i <= 12,
            forall|j: int| 0 <= j < i ==> oct_digit(f@[j]),
            acc == oct_val(f@.take(i as int)),
            acc < pow8(i as nat),
            pow8(12) == 68719476736,
        decreases 12 - i,
    {
        let d = f[i] - 48;
        proof {
            lemma_pow8_le(i as nat, 11);
            assert(pow8((i + 1) as nat) == 8 * pow8(i as nat));
            assert(f@.take(i + 1).drop_last() =~= f@.take(i as int));
            assert(f@.take(i + 1).last() == f@[i as int]);
        }
        acc = acc * 8 + (d as u64);
        i += 1;
    }
    proof {
        lemma_oct_len(f@, i as int);
    }
    if i == 0 {
        None
    } else {
        Some(acc)
    }
}

/// True when the 512 bytes at `pos` are all zero.
fn block_zero_at(bytes: &[u8], pos: usize) -> (r: bool)
    requires
        pos + 512 <= bytes@.len(),
    ensures
        r == all_zero(bytes@.subrange(pos as int, pos as int + 512)),
{
    let n = bytes.len();
    let mut j: usize = 0;
    while j < 512
        invariant
            pos + 512 <= bytes@.len(),
            n == bytes@.len(),
            0 <= j <= 512,
            forall|k: int| pos <= k < pos + j ==> bytes@[k] == 0,
        decreases 512 - j,
    {
        if *slice_index_get(bytes, pos + j) != 0 {
            assert(bytes@.subrange(pos as int, pos as int + 512)[j as int] != 0);
            return false;
        }
        j += 1;
    }
    proof {
        let sub = bytes@.subrange(pos as int, pos as int + 512);
        assert forall|k: int| 0 <= k < sub.len() implies sub[k] == 0 by {
            assert(sub[k] == bytes@[pos + k]);
        }
    }
    true
}

/// Copies the bytes of `s` in `[start, end)` up to their first NUL.
fn bytes_until_nul(s: &[u8], start: usize, end: usize) -> (r: Vec<u8>)
    requires
        start <= end <= s@.len(),
    ensures
        r@ == until_nul(s@.subrange(start as int, end as int)),
{
    let mut out: Vec<u8> = Vec::new();
    let mut i: usize = start;
    while i < end && *slice_index_get(s, i) != 0
        invariant
            start <= i <= end <= s@.len(),
            forall|j: int| start <= j < i ==> s@[j] != 0,
            out@ == s@.subrange(start as int, i as int),
        decreases end - i,
    {
        out.push(*slice_index_get(s, i));
        assert(out@ =~= s@.subrange(start as int, i + 1));
        i += 1;
    }
    proof {
        let sub = s@.subrange(start as int, end as int);
        lemma_until_nul(sub, i - start);
        assert(sub.take(i - start) =~= s@.subrange(start as int, i as int));
    }
    out
}

/// The kind an exec type flag names, as `kind_of` states it.
fn kind_of_flag(flag: u8) -> (k: EntryKind)
    ensures
        k == kind_of(flag),
{
    if flag == 48 || flag == 0 {
        EntryKind::File
    } else if flag == 53 {
        EntryKind::Directory
    } else if flag == 50 {
        EntryKind::Symlink
    } else {
        EntryKind::Other
    }
}

/// A head of `s` that no further bytes can complete into a record: a
/// non-zero header block whose size field is unreadable, or whose record
/// is longer than `s`.
pub open spec fn blocked(s: Seq<u8>) -> bool {
    &&& s.len() >= 512
    &&& !all_zero(s.take(512))
    &&& {
        let f = size_field(s.take(512));
        oct_len(f) != 0 ==> s.len() < 512 + padded_size(oct_val(f.take(oct_len(f))))
    }
}

/// An incremental tar decoder: bytes are fed in as they arrive and each
/// record is decoded as soon as it is complete, so a layer is decoded in
/// one pass without seeking and without knowing its size in advance.
pub struct ArchiveDecoder {
    buf: Vec<u8>,
    entries: Vec<ArchiveEntry>,
    done: bool,
    fed: Ghost<Seq<u8>>,
}

impl ArchiveDecoder {
    /// All bytes fed so far.
    pub closed spec fn fed(&self) -> Seq<u8> {
        self.fed@
    }

    /// The decoder's invariant: whatever bytes may still follow, what was
    /// fed decodes as the records already decoded, followed by whatever
    /// the buffered remainder and those bytes decode as.
    pub closed spec fn wf(&self) -> bool {
        if self.done {
            forall|f: Seq<u8>|
                #![trigger self.fed@ + f]
                tar_entries(self.fed@ + f) == Some(models(self.entries@))
        } else {
            forall|f: Seq<u8>|
                #![trigger self.buf@ + f]
                match tar_entries(self.buf@ + f) {
                    Some(ms) => tar_entries(self.fed@ + f) == Some(models(self.entries@) + ms),
                    None => tar_entries(self.fed@ + f) is None,
                }
        }
    }

    /// A fresh decoder that has seen no bytes.
    pub fn new() -> (d: ArchiveDecoder)
        ensures
            d.wf(),
            d.fed() == Seq::<u8>::empty(),
    {
        let d = ArchiveDecoder {
            buf: Vec::new(),
            entries: Vec::new(),
            done: false,
            fed: Ghost(Seq::empty()),
        };
        proof {
            assert forall|f: Seq<u8>|
                match tar_entries(#[trigger] (d.buf@ + f)) {
                    Some(ms) => tar_entries(d.fed@ + f) == Some(models(d.entries@) + ms),
                    None => tar_entries(d.fed@ + f) is None,
                } by {
                assert(d.buf@ + f =~= f);
                assert(d.fed@ + f =~= f);
                match tar_entries(f) {
                    Some(ms) => {
                        assert(models(d.entries@) + ms =~= ms);
                    },
                    None => {},
                }
            }
        }
        d
    }

    /// Feeds the next chunk of the stream, decoding every record it
    /// completes.
    pub fn feed(&mut self, chunk: &[u8])
        requires
            old(self).wf(),
        ensures
            final(self).wf(),
            final(self).fed() == old(self).fed() + chunk@,
    {
        let ghost oldfed = self.fed@;
        let ghost oldbuf = self.buf@;
        self.fed = Ghost(self.fed@ + chunk@);
        if self.done {
            proof {
                assert forall|f: Seq<u8>|
                    tar_entries(#[trigger] (self.fed@ + f)) == Some(models(self.entries@)) by {
                    assert(self.fed@ + f =~= oldfed + (chunk@ + f));
                    assert(tar_entries(oldfed + (chunk@ + f)) == Some(models(self.entries@)));
                }
            }
            return ;
        }
        let mut tmp = slice_to_vec(chunk);
        self.buf.append(&mut tmp);
        proof {
            assert forall|f: Seq<u8>|
                match tar_entries(#[trigger] (self.buf@ + f)) {
                    Some(ms) => tar_entries(self.fed@ + f) == Some(models(self.entries@) + ms),
                    None => tar_entries(self.fed@ + f) is None,
                } by {
                assert(self.buf@ + f =~= oldbuf + (chunk@ + f));
                assert(self.fed@ + f =~= oldfed + (chunk@ + f));
                let _ = tar_entries(oldbuf + (chunk@ + f));
            }
        }
        self.drain();
    }

    /// Decodes every complete record standing at the head of the buffer.
    fn drain(&mut self)
        requires
            old(self).wf(),
        ensures
            final(self).wf(),
            final(self).fed() == old(self).fed(),
            final(self).done || final(self).buf@.len() < 512 || blocked(final(self).buf@),
    {
        loop
            invariant
                self.wf(),
                self.fed() == old(self).fed(),
            decreases self.buf@.len(),
        {
            if self.done {
                return ;
            }
            let blen = self.buf.len();
            if blen < 512 {
                return ;
            }
            let ghost oldbuf = self.buf@;
            let ghost oldfed = self.fed@;
            let ghost oldes = self.entries@;
            if block_zero_at(self.buf.as_slice(), 0) {
                proof {
                    assert(self.buf@.subrange(0, 512) =~= self.buf@.take(512));
                }
                self.done = true;
                proof {
                    assert forall|f: Seq<u8>|
                        tar_entries(#[trigger] (self.fed@ + f)) == Some(
                            models(self.entries@),
                        ) by {
                        let s = oldbuf + f;
                        assert(s.take(512) =~= oldbuf.take(512));
                        assert(tar_entries(s) == Some(Seq::<EntryModel>::empty()));
                        assert(models(self.entries@) + Seq::<EntryModel>::empty() =~= models(
                            self.entries@,
                        ));
                    }
                }
                return ;
            }
            let header = slice_subrange(self.buf.as_slice(), 0, 512);
            proof {
                assert(header@ =~= self.buf@.take(512));
                assert(size_field(header@) =~= header@.subrange(124, 136));
            }
            let field = slice_subrange(header, 124, 136);
            assert(field@ =~= size_field(self.buf@.take(512)));
            let sz = match parse_size_field(field) {
                Some(v) => v,
                None => {
                    return ;
                },
            };
            proof {
                reveal_with_fuel(pow8, 13);
            }
            let padded: u64 = if sz % 512 == 0 {
                sz
            } else {
                sz + (512 - sz % 512)
            };
            assert(padded == padded_size(sz as nat));
            if ((blen - 512) as u64) < padded {
                return ;
            }
            let sz_us = sz as usize;
            let padded_us = padded as usize;
            let data = slice_to_vec(slice_subrange(self.buf.as_slice(), 512, 512 + sz_us));
            let path = bytes_until_nul(header, 0, 100);
            let link_target = bytes_until_nul(header, 157, 257);
            let kind = kind_of_flag(*slice_index_get(header, 156));
            let entry = ArchiveEntry { path, kind, data, link_target };
            let rest = slice_to_vec(slice_subrange(self.buf.as_slice(), 512 + padded_us, blen));
            proof {
                let b = oldbuf.take(512);
                assert(header@.subrange(0, 100) =~= b.subrange(0, 100));
                assert(header@.subrange(157, 257) =~= b.subrange(157, 257));
                assert(header@[156] == b[156]);
                assert(entry@ == header_entry(b, oldbuf.subrange(512, 512 + sz as int)));
                assert forall|f: Seq<u8>|
                    match tar_entries(#[trigger] (rest@ + f)) {
                        Some(ms) => tar_entries(oldfed + f) == Some(
                            models(oldes.push(entry)) + ms,
                        ),
                        None => tar_entries(oldfed + f) is None,
                    } by {
                    let s = oldbuf + f;
                    assert(s.take(512) =~= b);
                    assert(size_field(s.take(512)) =~= field@);
                    assert(s.len() >= 512 + padded_size(sz as nat));
                    assert(s.subrange(512, 512 + sz as int) =~= oldbuf.subrange(
                        512,
                        512 + sz as int,
                    ));
                    assert(s.skip(512 + padded as int) =~= rest@ + f);
                    match tar_entries(rest@ + f) {
                        Some(ms) => {
                            assert(tar_entries(s) == Some(
                                seq![header_entry(b, oldbuf.subrange(512, 512 + sz as int))] + ms,
                            ));
                            assert(tar_entries(oldfed + f) == Some(
                                models(oldes) + (seq![entry@] + ms),
                            ));
                            assert(models(oldes.push(entry)) =~= models(oldes) + seq![entry@]);
                            assert(models(oldes.push(entry)) + ms =~= models(oldes) + (seq![entry@]
                                + ms));
                        },
                        None => {
                            assert(tar_entries(s) is None);
                        },
                    }
                }
            }
            self.entries.push(entry);
            self.buf = rest;
        }
    }

    /// Ends the stream: the records decoded from everything fed, exactly
    /// as `tar_entries` states them, or an `ArchiveError` when the stream
    /// was malformed or ended mid-record.
    pub fn finish(self) -> (r: Result<Vec<ArchiveEntry>, FetchError>)
        requires
            self.wf(),
        ensures
            r matches Ok(v) ==> tar_entries(self.fed()) == Some(models(v@)),
            r is Err <==> tar_entries(self.fed()) is None,
            r is Err ==> r == Err::<Vec<ArchiveEntry>, FetchError>(FetchError::ArchiveError),
    {
        let mut d = self;
        let ghost fedv = d.fed@;
        d.drain();
        proof {
            assert(d.fed@ + Seq::<u8>::empty() =~= fedv);
            assert(d.buf@ + Seq::<u8>::empty() =~= d.buf@);
        }
        if d.done {
            return Ok(d.entries);
        }
        let blen = d.buf.len();
        if blen == 0 {
            proof {
                assert(tar_entries(d.buf@) == Some(Seq::<EntryModel>::empty()));
                assert(models(d.entries@) + Seq::<EntryModel>::empty() =~= models(d.entries@));
            }
            return Ok(d.entries);
        }
        // the stream ended mid-record, or the head record can never be
        // completed: `drain` left the head only when it was short or blocked
        assert(tar_entries(d.buf@) is None);
        assert(tar_entries(fedv) is None);
        Err(FetchError::ArchiveError)
    }
}

/// Decodes a whole decompressed layer as a tar stream, in stream order,
/// exactly as `tar_entries` states it; a malformed stream is an
/// `ArchiveError`.
pub fn parse_archive(bytes: &[u8]) -> (r: Result<Vec<ArchiveEntry>, FetchError>)
    ensures
        r matches Ok(v) ==> tar_entries(bytes@) == Some(models(v@)),
        r is Err <==> tar_entries(bytes@) is None,
        r is Err ==> r == Err::<Vec<ArchiveEntry>, FetchError>(FetchError::ArchiveError),
{
    let mut d = ArchiveDecoder::new();
    d.feed(bytes);
    proof {
        assert(Seq::<u8>::empty() + bytes@ =~= bytes@);
    }
    d.finish()
}

} // verus!
