use vstd::prelude::*;

use crate::lines::{count_newlines, spec_lines, split_lines, split_newlines, NEWLINE};
use crate::lines::{lemma_lines_len, lemma_split_len};

verus! {

/// How many bytes one backward read takes at most.
pub const CHUNK_SIZE: u64 = 8192;

/// The last `n` lines of `s`, in their original order; all of them when the
/// file has fewer than `n`.
pub open spec fn tail_spec(s: Seq<u8>, n: int) -> Seq<Seq<u8>> {
    let ls = spec_lines(s);
    if n >= ls.len() {
        ls
    } else {
        ls.skip(ls.len() - n)
    }
}

pub proof fn lemma_count_le_len(s: Seq<u8>)
    ensures
        count_newlines(s) <= s.len(),
    decreases s.len(),
{
    if s.len() > 0 {
        lemma_count_le_len(s.drop_last());
    }
}

pub proof fn lemma_count_concat(a: Seq<u8>, b: Seq<u8>)
    ensures
        count_newlines(a + b) == count_newlines(a) + count_newlines(b),
    decreases b.len(),
{
    if b.len() == 0 {
        assert(a + b =~= a);
    } else {
        assert((a + b).drop_last() =~= a + b.drop_last());
        assert((a + b).last() == b.last());
        lemma_count_concat(a, b.drop_last());
    }
}

/// A suffix never holds more newlines than the whole.
pub proof fn lemma_count_skip(s: Seq<u8>, pos: int)
    requires
        0 <= pos <= s.len(),
    ensures
        count_newlines(s.skip(pos)) <= count_newlines(s),
    decreases s.len(),
{
    if pos == s.len() {
        assert(s.skip(pos) =~= Seq::<u8>::empty());
    } else {
        assert(s.skip(pos).drop_last() =~= s.drop_last().skip(pos));
        assert(s.skip(pos).last() == s.last());
        lemma_count_skip(s.drop_last(), pos);
    }
}

/// The split segments of a suffix agree with those of the whole file on
/// everything after the suffix's first newline: only the suffix's first
/// segment can be a truncated piece of a longer line.
pub proof fn lemma_split_suffix(s: Seq<u8>, pos: int)
    requires
        0 <= pos <= s.len(),
    ensures
        split_newlines(s).skip(
            count_newlines(s) + 1 - count_newlines(s.skip(pos)),
        ) == split_newlines(s.skip(pos)).skip(1),
    decreases s.len(),
{
    let suf = s.skip(pos);
    let k = count_newlines(suf);
    let bigk = count_newlines(s);
    lemma_count_skip(s, pos);
    lemma_split_len(s);
    lemma_split_len(suf);
    if pos == s.len() {
        assert(suf =~= Seq::<u8>::empty());
        assert(split_newlines(s).skip(bigk + 1int) =~= split_newlines(suf).skip(1));
    } else {
        let s1 = s.drop_last();
        let suf1 = s1.skip(pos);
        assert(suf1 =~= suf.drop_last());
        assert(suf.last() == s.last());
        let k1 = count_newlines(suf1);
        let bigk1 = count_newlines(s1);
        lemma_split_suffix(s1, pos);
        lemma_count_skip(s1, pos);
        lemma_split_len(s1);
        lemma_split_len(suf1);
        let t = split_newlines(s1);
        let u = split_newlines(suf1);
        if s.last() == NEWLINE {
            assert(k == k1 + 1);
            assert(bigk == bigk1 + 1);
            assert(split_newlines(s) == t.push(Seq::<u8>::empty()));
            assert(split_newlines(suf) == u.push(Seq::<u8>::empty()));
            assert(t.push(Seq::<u8>::empty()).skip(bigk1 + 1 - k1) =~= t.skip(bigk1 + 1 - k1).push(
                Seq::<u8>::empty(),
            ));
            assert(u.push(Seq::<u8>::empty()).skip(1) =~= u.skip(1).push(Seq::<u8>::empty()));
        } else {
            assert(k == k1);
            assert(bigk == bigk1);
            assert(split_newlines(s) == t.update(t.len() - 1, t.last().push(s.last())));
            assert(split_newlines(suf) == u.update(u.len() - 1, u.last().push(s.last())));
            if k1 == 0 {
                assert(split_newlines(suf).len() == 1);
                assert(split_newlines(suf).skip(1) =~= Seq::<Seq<u8>>::empty());
                assert(split_newlines(s).len() == bigk + 1);
                assert(split_newlines(s).skip(bigk + 1int) =~= Seq::<Seq<u8>>::empty());
            } else {
                assert(t.skip(bigk1 + 1 - k1).last() == u.skip(1).last());
                assert(t.last() == t.skip(bigk1 + 1 - k1).last());
                assert(u.last() == u.skip(1).last());
                let grown = t.last().push(s.last());
                assert(t.update(t.len() - 1, grown).skip(bigk1 + 1 - k1) =~= t.skip(
                    bigk1 + 1 - k1,
                ).update(k1 as int - 1, grown));
                assert(u.update(u.len() - 1, grown).skip(1) =~= u.skip(1).update(
                    k1 as int - 1,
                    grown,
                ));
            }
        }
    }
}

/// Once a suffix of the file shows more lines than are asked for (or the
/// whole file has been taken), the last `n` lines of the suffix are exactly
/// the last `n` lines of the file.
pub proof fn lemma_tail_of_suffix(s: Seq<u8>, pos: int, n: int)
    requires
        0 <= pos <= s.len(),
        n >= 0,
        pos == 0 || n < spec_lines(s.skip(pos)).len(),
    ensures
        tail_spec(s.skip(pos), n) == tail_spec(s, n),
{
    let suf = s.skip(pos);
    if pos == 0 {
        assert(suf =~= s);
    } else {
        let k = count_newlines(suf);
        let bigk = count_newlines(s);
        let ls = spec_lines(s);
        let lsuf = spec_lines(suf);
        lemma_lines_len(s);
        lemma_lines_len(suf);
        lemma_split_len(s);
        lemma_split_len(suf);
        lemma_count_skip(s, pos);
        lemma_split_suffix(s, pos);
        assert(suf.len() > 0);
        assert(suf.last() == s.last());
        assert(ls.len() - lsuf.len() == bigk - k);
        assert(n < lsuf.len() <= ls.len());
        let shift = ls.len() - lsuf.len();
        assert forall|j: int| 0 <= j < n implies #[trigger] lsuf.skip(lsuf.len() - n)[j] == ls.skip(
            ls.len() - n,
        )[j] by {
            let isuf = lsuf.len() - n + j;
            let iall = ls.len() - n + j;
            assert(1 <= isuf < lsuf.len());
            assert(lsuf[isuf] == split_newlines(suf)[isuf]);
            assert(ls[iall] == split_newlines(s)[iall]);
            let m = isuf - 1;
            assert(split_newlines(suf).skip(1)[m] == split_newlines(suf)[isuf]);
            assert(split_newlines(s).skip(bigk + 1 - k)[m] == split_newlines(s)[bigk + 1 - k + m]);
            assert(bigk + 1 - k + m == iall);
        }
        assert(lsuf.skip(lsuf.len() - n) =~= ls.skip(ls.len() - n));
    }
}

/// The stop test of the backward scan: when the bytes kept so far hold more
/// newlines than lines were asked for — or the scan reached the file's very
/// start, or the file does not end in a newline — trimming them to the last
/// `n` lines gives exactly the file's last `n` lines.
pub proof fn lemma_scan_stop(s: Seq<u8>, pos: int, n: int)
    requires
        0 <= pos <= s.len(),
        n >= 0,
        pos == 0 || n == 0 || count_newlines(s.skip(pos)) > n || (count_newlines(s.skip(pos)) == n
            && s.len() > 0 && s.last() != NEWLINE),
    ensures
        tail_spec(s.skip(pos), n) == tail_spec(s, n),
{
    let suf = s.skip(pos);
    if pos == 0 {
        lemma_tail_of_suffix(s, pos, n);
    } else if n == 0 {
        lemma_lines_len(s);
        lemma_lines_len(suf);
        if spec_lines(suf).len() == 0 {
            assert(tail_spec(suf, 0) == spec_lines(suf));
        } else {
            assert(tail_spec(suf, 0) =~= Seq::<Seq<u8>>::empty());
        }
        if spec_lines(s).len() == 0 {
            assert(tail_spec(s, 0) == spec_lines(s));
        } else {
            assert(tail_spec(s, 0) =~= Seq::<Seq<u8>>::empty());
        }
    } else {
        lemma_lines_len(suf);
        lemma_count_le_len(suf);
        assert(suf.len() > 0);
        assert(suf.last() == s.last());
        assert(n < spec_lines(suf).len());
        lemma_tail_of_suffix(s, pos, n);
    }
}

/// Never more lines than asked for, never more than the file holds, and
/// nothing at all from an empty file.
pub fn tail_lines(content: &Vec<u8>, n: usize) -> (r: Vec<Vec<u8>>)
    ensures
        r.deep_view() == tail_spec(content@, n as int),
        r@.len() == if n <= spec_lines(content@).len() {
            n as int
        } else {
            spec_lines(content@).len() as int
        },
        content@.len() == 0 ==> r@.len() == 0,
{
    let mut all = split_lines(content);
    if all.len() > n {
        let ghost pre_dv = all.deep_view();
        let ghost pre_v = all@;
        let at = all.len() - n;
        let kept = all.split_off(at);
        proof {
            assert forall|j: int| 0 <= j < kept@.len() implies #[trigger] kept.deep_view()[j]
                == pre_dv.skip(at as int)[j] by {
                assert(kept@[j] == pre_v[at + j]);
            }
            assert(kept.deep_view() =~= pre_dv.skip(at as int));
        }
        kept
    } else {
        all
    }
}

/// Repeated reads of an unmodified file see the very same bytes, so two
/// runs of the tail computation give identical output.
pub proof fn lemma_tail_idempotent(content: Seq<u8>, n: int, r1: Seq<Seq<u8>>, r2: Seq<Seq<u8>>)
    requires
        r1 == tail_spec(content, n),
        r2 == tail_spec(content, n),
    ensures
        r1 == r2,
{
}

/// The whole backward scan run in memory: chunks are read off the back of
/// `content` exactly as the file scan reads them off a file's end, at most
/// `CHUNK_SIZE` bytes each, until enough newlines were seen. On any file
/// that does not end in a newline, and on any file of at most one chunk,
/// the result is provably the file's true last `n` lines; a file that ends
/// in a newline can stop the scan on a chunk boundary with the oldest kept
/// line truncated, which is the scan's accepted approximation.
pub fn scan_tail(content: &Vec<u8>, n: usize) -> (r: Vec<Vec<u8>>)
    ensures
        r@.len() <= n,
        content@.len() == 0 || content@.last() != NEWLINE ==> r.deep_view() == tail_spec(
            content@,
            n as int,
        ),
        content@.len() <= CHUNK_SIZE ==> r.deep_view() == tail_spec(content@, n as int),
{
    let mut scan = TailScan::new(content.len() as u64, n);
    proof {
        assert(Seq::<u8>::empty() =~= content@.skip(content@.len() as int));
    }
    while scan.wants_more()
        invariant
            scan.wf(),
            scan.tailsize == n,
            scan.file_size == content@.len(),
            scan.acc@ == content@.skip(scan.position as int),
            content@.len() <= CHUNK_SIZE ==> (scan.position == content@.len() || scan.position
                == 0),
        decreases scan.position,
    {
        let read_size = scan.read_size() as usize;
        let clen = content.len();
        proof {
            assert(scan.position <= clen);
            assert(clen <= usize::MAX);
        }
        let pos = scan.position as usize;
        proof {
            assert(pos == scan.position);
            assert(read_size <= pos);
        }
        let chunk = vstd::slice::slice_to_vec(
            vstd::slice::slice_subrange(content.as_slice(), pos - read_size, pos),
        );
        let ghost old_pos = pos as int;
        let ghost rs = read_size as int;
        scan.feed(chunk);
        proof {
            assert(scan.position == old_pos - rs);
            assert(content@.subrange(old_pos - rs, old_pos) + content@.skip(old_pos)
                =~= content@.skip(old_pos - rs));
            assert(scan.acc@ =~= content@.skip(scan.position as int));
        }
    }
    proof {
        let s = content@;
        let pos = scan.position as int;
        assert(count_newlines(s.skip(pos)) == scan.newlines_seen);
        if s.len() == 0 || s.last() != NEWLINE {
            if pos != 0 && n != 0 && count_newlines(s.skip(pos)) <= n {
                assert(s.len() > 0);
            }
            lemma_scan_stop(s, pos, n as int);
        } else if s.len() <= CHUNK_SIZE {
            if pos != 0 {
                assert(s.skip(pos) =~= Seq::<u8>::empty());
                assert(count_newlines(Seq::<u8>::empty()) == 0);
                assert(n == 0);
            }
            lemma_scan_stop(s, pos, n as int);
        }
    }
    let r = scan.lines();
    proof {
        assert(r@.len() == r.deep_view().len());
    }
    r
}

/// The state of one backward chunked scan: a cursor that started at the end
/// of the file and the bytes accumulated behind it, with a running count of
/// the newlines seen so far.
pub struct TailScan {
    pub tailsize: usize,
    pub file_size: u64,
    pub position: u64,
    pub newlines_seen: usize,
    pub acc: Vec<u8>,
}

impl TailScan {
    /// The accumulated bytes are exactly the file's bytes from the cursor to
    /// the end, and the newline count describes them.
    pub open spec fn wf(self) -> bool {
        &&& self.position <= self.file_size
        &&& self.acc@.len() == self.file_size - self.position
        &&& self.newlines_seen == count_newlines(self.acc@)
    }

    /// The scan stops at the file's start, or as soon as it has seen as many
    /// newlines as lines were asked for.
    pub open spec fn done(self) -> bool {
        self.position == 0 || self.newlines_seen >= self.tailsize
    }

    /// How many bytes the next backward read must hand over.
    pub open spec fn spec_read_size(self) -> u64 {
        if self.position > CHUNK_SIZE {
            CHUNK_SIZE
        } else {
            self.position
        }
    }

    pub fn new(file_size: u64, n: usize) -> (r: TailScan)
        ensures
            r.wf(),
            r.file_size == file_size,
            r.position == file_size,
            r.tailsize == n,
            r.acc@ == Seq::<u8>::empty(),
    {
        TailScan { tailsize: n, file_size, position: file_size, newlines_seen: 0, acc: Vec::new() }
    }

    pub fn wants_more(&self) -> (r: bool)
        ensures
            r == !self.done(),
    {
        self.position > 0 && self.newlines_seen < self.tailsize
    }

    /// The next read's span: the cursor moves back by this much, and the
    /// bytes found there are handed to `feed`.
    pub fn read_size(&self) -> (r: u64)
        requires
            !self.done(),
        ensures
            r == self.spec_read_size(),
            0 < r <= CHUNK_SIZE,
    {
        if self.position > CHUNK_SIZE {
            CHUNK_SIZE
        } else {
            self.position
        }
    }

    /// Takes the bytes just read — the ones lying immediately before the old
    /// cursor — and puts them in front of everything read so far.
    pub fn feed(&mut self, chunk: Vec<u8>)
        requires
            old(self).wf(),
            !old(self).done(),
            chunk@.len() == old(self).spec_read_size(),
        ensures
            final(self).wf(),
            final(self).acc@ == chunk@ + old(self).acc@,
            final(self).position == old(self).position - chunk@.len(),
            final(self).tailsize == old(self).tailsize,
            final(self).file_size == old(self).file_size,
            final(self).newlines_seen == old(self).newlines_seen + count_newlines(chunk@),
    {
        let mut fresh = chunk;
        let mut cnt: usize = 0;
        let mut i: usize = 0;
        proof {
            lemma_count_le_len(fresh@);
        }
        while i < fresh.len()
            invariant
                i <= fresh@.len(),
                cnt == count_newlines(fresh@.take(i as int)),
                cnt <= i,
            decreases fresh@.len() - i,
        {
            proof {
                assert(fresh@.take(i + 1).drop_last() =~= fresh@.take(i as int));
                assert(fresh@.take(i + 1).last() == fresh@[i as int]);
            }
            if fresh[i] == NEWLINE {
                cnt += 1;
            }
            i += 1;
        }
        proof {
            assert(fresh@.take(fresh@.len() as int) =~= fresh@);
            lemma_count_concat(fresh@, self.acc@);
            lemma_count_le_len(self.acc@);
        }
        let step = fresh.len();
        fresh.append(&mut self.acc);
        self.acc = fresh;
        self.position = self.position - step as u64;
        let total = self.acc.len();
        proof {
            assert(self.newlines_seen + cnt <= total);
        }
        self.newlines_seen = self.newlines_seen + cnt;
    }

    /// Trims what was read to the last `tailsize` lines. By `lemma_scan_stop`,
    /// whenever the scan stopped with more newlines than lines asked for — or
    /// at the file's start, or on a file with no final newline — these are
    /// exactly the file's last lines.
    pub fn lines(&self) -> (r: Vec<Vec<u8>>)
        ensures
            r.deep_view() == tail_spec(self.acc@, self.tailsize as int),
    {
        tail_lines(&self.acc, self.tailsize)
    }
}

} // verus!
