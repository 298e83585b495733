//! Log files read as lines, and the lines that appear while a log grows.

use vstd::prelude::*;

verus! {

/// The newline byte.
pub open spec fn newline() -> u8 {
    10u8
}

/// Reading bytes left to right: the complete lines so far, each without its
/// newline, and the bytes after the last newline.
pub open spec fn scan(s: Seq<u8>) -> (Seq<Seq<u8>>, Seq<u8>)
    decreases s.len(),
{
    if s.len() == 0 {
        (Seq::empty(), Seq::empty())
    } else {
        let (lines, cur) = scan(s.drop_last());
        if s.last() == newline() {
            (lines.push(cur), Seq::empty())
        } else {
            (lines, cur.push(s.last()))
        }
    }
}

/// The lines written back out, each followed by a newline.
pub open spec fn unsplit(lines: Seq<Seq<u8>>) -> Seq<u8>
    decreases lines.len(),
{
    if lines.len() == 0 {
        Seq::empty()
    } else {
        unsplit(lines.drop_last()) + lines.last().push(newline())
    }
}

/// A line without the carriage return that ended it, if any.
pub open spec fn strip_cr(line: Seq<u8>) -> Seq<u8> {
    if line.len() > 0 && line.last() == 13u8 {
        line.drop_last()
    } else {
        line
    }
}

/// The lines of a text as `str::lines` reads them: split at each newline, a
/// carriage return before a newline dropped, and the last line counted only
/// when it is not empty.
pub open spec fn text_lines_of(s: Seq<u8>) -> Seq<Seq<u8>> {
    let (lines, rest) = scan(s);
    let stripped = lines.map_values(|l: Seq<u8>| strip_cr(l));
    if rest.len() > 0 {
        stripped.push(rest)
    } else {
        stripped
    }
}

/// The lines of a split with the bytes after the last newline added as a
/// last line, when there are any.
pub open spec fn flushed(split: (Seq<Seq<u8>>, Seq<u8>)) -> Seq<Seq<u8>> {
    if split.1.len() > 0 {
        split.0.push(split.1)
    } else {
        split.0
    }
}

/// The last `n` elements, or all of them when there are fewer.
pub open spec fn last_n<T>(s: Seq<T>, n: nat) -> Seq<T> {
    if s.len() <= n {
        s
    } else {
        s.subrange(s.len() - n, s.len() as int)
    }
}

/// The split of the bytes and the split of one more byte.
pub proof fn lemma_scan_step(s: Seq<u8>, b: u8)
    ensures
        scan(s.push(b)) == (if b == newline() {
            (scan(s).0.push(scan(s).1), Seq::<u8>::empty())
        } else {
            (scan(s).0, scan(s).1.push(b))
        }),
{
    assert(s.push(b).drop_last() =~= s);
}

/// Splitting loses nothing: the lines, each with its newline, followed by
/// the bytes after the last newline, are the bytes.
pub proof fn lemma_scan_unsplit(s: Seq<u8>)
    ensures
        unsplit(scan(s).0) + scan(s).1 == s,
    decreases s.len(),
{
    if s.len() > 0 {
        let p = s.drop_last();
        lemma_scan_unsplit(p);
        let (lines, cur) = scan(p);
        assert(s == p.push(s.last()));
        if s.last() == newline() {
            assert(lines.push(cur).drop_last() =~= lines);
            assert(unsplit(lines.push(cur)) + Seq::<u8>::empty() =~= unsplit(lines) + cur.push(newline()));
            assert(unsplit(lines) + cur.push(newline()) =~= (unsplit(lines) + cur).push(newline()));
        } else {
            assert(unsplit(lines) + cur.push(s.last()) =~= (unsplit(lines) + cur).push(s.last()));
        }
    }
}

/// The rest after the last newline holds no newline.
pub proof fn lemma_scan_rest_has_no_newline(s: Seq<u8>)
    ensures
        !scan(s).1.contains(newline()),
    decreases s.len(),
{
    if s.len() > 0 {
        lemma_scan_rest_has_no_newline(s.drop_last());
        let (lines, cur) = scan(s.drop_last());
        if s.last() != newline() {
            if cur.push(s.last()).contains(newline()) {
                let q = choose|q: int| 0 <= q < cur.len() + 1 && cur.push(s.last())[q] == newline();
                if q < cur.len() {
                    assert(cur[q] == newline());
                }
            }
        }
    }
}

/// Bytes without a newline make no line: they all wait.
pub proof fn lemma_scan_without_newline(s: Seq<u8>)
    requires
        !s.contains(newline()),
    ensures
        scan(s) == (Seq::<Seq<u8>>::empty(), s),
    decreases s.len(),
{
    if s.len() > 0 {
        let p = s.drop_last();
        assert(!p.contains(newline())) by {
            if p.contains(newline()) {
                let q = choose|q: int| 0 <= q < p.len() && p[q] == newline();
                assert(s[q] == newline());
            }
        }
        lemma_scan_without_newline(p);
        assert(s[s.len() - 1] != newline());
        assert(p.push(s.last()) =~= s);
    }
}

/// Splitting `p` followed by `c` is splitting `p`, then splitting what waits
/// after `p` followed by `c`.
pub proof fn lemma_scan_append(p: Seq<u8>, c: Seq<u8>)
    ensures
        scan(p + c) == (scan(p).0 + scan(scan(p).1 + c).0, scan(scan(p).1 + c).1),
    decreases c.len(),
{
    let q = scan(p).1;
    if c.len() == 0 {
        lemma_scan_rest_has_no_newline(p);
        lemma_scan_without_newline(q);
        assert(p + c =~= p);
        assert(q + c =~= q);
        assert(scan(p).0 + Seq::<Seq<u8>>::empty() =~= scan(p).0);
    } else {
        let c0 = c.drop_last();
        let b = c.last();
        lemma_scan_append(p, c0);
        assert(p + c =~= (p + c0).push(b));
        assert(q + c =~= (q + c0).push(b));
        lemma_scan_step(p + c0, b);
        lemma_scan_step(q + c0, b);
        let a = scan(p).0;
        let bl = scan(q + c0).0;
        let r = scan(q + c0).1;
        if b == newline() {
            assert(a + bl.push(r) =~= (a + bl).push(r));
        }
    }
}

/// The bytes of the chunks, one after another.
pub open spec fn concat_chunks(chunks: Seq<Seq<u8>>) -> Seq<u8>
    decreases chunks.len(),
{
    if chunks.len() == 0 {
        Seq::empty()
    } else {
        concat_chunks(chunks.drop_last()) + chunks.last()
    }
}

/// The chunks handed one after another to the line splitter, starting with
/// `waiting`: every line handed out, in order, and the bytes left waiting.
pub open spec fn feed_chunks(waiting: Seq<u8>, chunks: Seq<Seq<u8>>) -> (Seq<Seq<u8>>, Seq<u8>)
    decreases chunks.len(),
{
    if chunks.len() == 0 {
        (Seq::empty(), waiting)
    } else {
        let (lines, rest) = feed_chunks(waiting, chunks.drop_last());
        let (more, left) = scan(rest + chunks.last());
        (lines + more, left)
    }
}

/// Splits bytes into complete lines and the bytes after the last newline.
pub fn split_lines(bytes: &Vec<u8>) -> (r: (Vec<Vec<u8>>, Vec<u8>))
    ensures
        r.0@.map_values(|l: Vec<u8>| l@) == scan(bytes@).0,
        r.1@ == scan(bytes@).1,
{
    let mut lines: Vec<Vec<u8>> = Vec::new();
    let mut cur: Vec<u8> = Vec::new();
    let mut i: usize = 0;
    while i < bytes.len()
        invariant
            i <= bytes.len(),
            lines@.map_values(|l: Vec<u8>| l@) == scan(bytes@.subrange(0, i as int)).0,
            cur@ == scan(bytes@.subrange(0, i as int)).1,
        decreases bytes.len() - i,
    {
        let b = bytes[i];
        proof {
            assert(bytes@.subrange(0, i + 1) =~= bytes@.subrange(0, i as int).push(b));
            lemma_scan_step(bytes@.subrange(0, i as int), b);
        }
        if b == 10u8 {
            let done = cur;
            let ghost dv = done@;
            let ghost before = lines@;
            lines.push(done);
            assert(lines@.map_values(|l: Vec<u8>| l@) =~= before.map_values(|l: Vec<u8>| l@).push(dv));
            cur = Vec::new();
            assert(cur@ =~= Seq::<u8>::empty());
        } else {
            cur.push(b);
        }
        i = i + 1;
    }
    assert(bytes@.subrange(0, bytes.len() as int) =~= bytes@);
    (lines, cur)
}

/// The lines of a log as text: complete lines without their newline (and
/// without a carriage return just before it), then the unfinished last line
/// when it is not empty.
pub fn text_lines(content: &Vec<u8>) -> (lines: Vec<Vec<u8>>)
    ensures
        lines@.map_values(|l: Vec<u8>| l@) == text_lines_of(content@),
{
    let (complete, rest) = split_lines(content);
    let ghost cv = complete@.map_values(|l: Vec<u8>| l@);
    let mut out: Vec<Vec<u8>> = Vec::new();
    let mut i: usize = 0;
    while i < complete.len()
        invariant
            i <= complete.len(),
            cv == complete@.map_values(|l: Vec<u8>| l@),
            out@.map_values(|l: Vec<u8>| l@) == cv.subrange(0, i as int).map_values(|l: Seq<u8>| strip_cr(l)),
        decreases complete.len() - i,
    {
        let line = &complete[i];
        assert(cv[i as int] == line@);
        let mut copy: Vec<u8> = Vec::new();
        let n = line.len();
        let end = if n > 0 && line[n - 1] == 13u8 { n - 1 } else { n };
        let mut k: usize = 0;
        while k < end
            invariant
                k <= end,
                end <= line@.len(),
                copy@ == line@.subrange(0, k as int),
            decreases end - k,
        {
            copy.push(line[k]);
            k = k + 1;
            assert(copy@ =~= line@.subrange(0, k as int));
        }
        assert(copy@ =~= strip_cr(line@));
        let ghost before = out@;
        let ghost copyv = copy@;
        out.push(copy);
        assert(out@.map_values(|l: Vec<u8>| l@) =~= before.map_values(|l: Vec<u8>| l@).push(copyv));
        assert(cv.subrange(0, i + 1).map_values(|l: Seq<u8>| strip_cr(l)) =~= cv.subrange(0, i as int).map_values(
            |l: Seq<u8>| strip_cr(l),
        ).push(strip_cr(cv[i as int])));
        i = i + 1;
    }
    assert(cv.subrange(0, complete.len() as int) =~= cv);
    if rest.len() > 0 {
        let ghost before = out@;
        let ghost rv = rest@;
        out.push(rest);
        assert(out@.map_values(|l: Vec<u8>| l@) =~= before.map_values(|l: Vec<u8>| l@).push(rv));
    }
    out
}

/// The lines to print of a log: all of them, or with `is_tail` the last ten.
pub fn log_lines_to_print(content: &Vec<u8>, is_tail: bool) -> (lines: Vec<Vec<u8>>)
    ensures
        lines@.map_values(|l: Vec<u8>| l@) == (if is_tail {
            last_n(text_lines_of(content@), 10)
        } else {
            text_lines_of(content@)
        }),
{
    let all = text_lines(content);
    if !is_tail || all.len() <= 10 {
        return all;
    }
    let ghost av = all@.map_values(|l: Vec<u8>| l@);
    let mut all = all;
    let tail = all.split_off(all.len() - 10);
    assert(tail@.map_values(|l: Vec<u8>| l@) =~= av.subrange(av.len() - 10, av.len() as int));
    tail
}

/// Follows a growing log: the bytes not yet printed because no newline ended
/// them, how far the file was read, and whether the first look was printed.
pub struct LogFollower {
    pub started: bool,
    pub pos: u64,
    pub remaining: Vec<u8>,
}

impl LogFollower {
    /// A follower that has seen nothing yet.
    pub fn new() -> (f: LogFollower)
        ensures
            !f.started,
            f.pos == 0,
            f.remaining@ == Seq::<u8>::empty(),
    {
        LogFollower { started: false, pos: 0, remaining: Vec::new() }
    }

    /// The first look at the log: its lines are printed (the last ten with
    /// `is_tail`) and reading goes on after its end.
    pub fn first_look(&mut self, content: &Vec<u8>, is_tail: bool) -> (lines: Vec<Vec<u8>>)
        ensures
            final(self).started,
            final(self).pos == content@.len(),
            final(self).remaining@ == old(self).remaining@,
            lines@.map_values(|l: Vec<u8>| l@) == (if is_tail {
                last_n(text_lines_of(content@), 10)
            } else {
                text_lines_of(content@)
            }),
    {
        let lines = log_lines_to_print(content, is_tail);
        self.pos = content.len() as u64;
        self.started = true;
        lines
    }

    /// How many new bytes to read from `pos` when the file is now `len` bytes
    /// long; none before the first look or when it did not grow.
    pub fn bytes_to_read(&self, len: u64) -> (n: Option<u64>)
        ensures
            n == (if self.started && len > self.pos {
                Some((len - self.pos) as u64)
            } else {
                None::<u64>
            }),
    {
        if self.started && len > self.pos {
            Some(len - self.pos)
        } else {
            None
        }
    }

    /// New bytes up to `len` were read: the lines they complete are printed
    /// and what follows the last newline waits.
    pub fn on_new_bytes(&mut self, new: &Vec<u8>, len: u64) -> (lines: Vec<Vec<u8>>)
        ensures
            final(self).started == old(self).started,
            final(self).pos == len,
            lines@.map_values(|l: Vec<u8>| l@) == scan(old(self).remaining@ + new@).0,
            final(self).remaining@ == scan(old(self).remaining@ + new@).1,
    {
        self.pos = len;
        emit_log_lines(&mut self.remaining, new, false)
    }

    /// The task ended: what waits is printed as a last line, if anything.
    pub fn finish(&mut self) -> (lines: Vec<Vec<u8>>)
        ensures
            final(self).started == old(self).started,
            final(self).pos == old(self).pos,
            final(self).remaining@ == Seq::<u8>::empty(),
            lines@.map_values(|l: Vec<u8>| l@) == flushed(scan(old(self).remaining@)),
    {
        let empty: Vec<u8> = Vec::new();
        let lines = emit_log_lines(&mut self.remaining, &empty, true);
        assert(old(self).remaining@ + empty@ =~= old(self).remaining@);
        lines
    }
}

/// Adds `new` to the bytes waiting in `remaining` and hands back every line
/// that a newline completes, without the newline. With `flush`, the bytes
/// after the last newline are handed back too, as a last line, when there are
/// any.
pub fn emit_log_lines(remaining: &mut Vec<u8>, new: &Vec<u8>, flush: bool) -> (lines: Vec<Vec<u8>>)
    ensures
        ({
            let (ls, rest) = scan(old(remaining)@ + new@);
            &&& !flush ==> lines@.map_values(|l: Vec<u8>| l@) == ls && final(remaining)@ == rest
            &&& flush ==> final(remaining)@ == Seq::<u8>::empty() && lines@.map_values(|l: Vec<u8>| l@) == flushed(
                scan(old(remaining)@ + new@),
            )
        }),
{
    let mut all: Vec<u8> = Vec::new();
    all.append(remaining);
    let mut extra = crate::task::copy_vec(new);
    all.append(&mut extra);
    assert(all@ =~= old(remaining)@ + new@);
    let (mut lines, rest) = split_lines(&all);
    if flush {
        if rest.len() > 0 {
            let ghost before = lines@;
            let ghost rv = rest@;
            lines.push(rest);
            assert(lines@.map_values(|l: Vec<u8>| l@) =~= before.map_values(|l: Vec<u8>| l@).push(rv));
        }
        *remaining = Vec::new();
    } else {
        *remaining = rest;
    }
    lines
}

} // verus!
