//! Event-stream framing for the HTTP transport's inbound direction.
//!
//! The long-lived GET response body arrives in arbitrary chunks. Blocks are
//! separated by a blank line; each block's first `data: ` line carries one
//! message. A block that carries no such line — or whose payload later fails
//! to parse — is dropped on its own, and the stream continues: nothing a bad
//! block holds can affect the blocks after it.

use crate::strutil::{seq_matches_at, str_starts_with};
use vstd::prelude::*;
use vstd::string::*;

verus! {

/// A blank-line separator sits at position `i`.
pub open spec fn sep_at(s: Seq<char>, i: int) -> bool {
    0 <= i && i + 2 <= s.len() && s[i] == '\n' && s[i + 1] == '\n'
}

/// Some separator occurs in `s`.
pub open spec fn has_sep(s: Seq<char>) -> bool {
    exists|i: int| sep_at(s, i)
}

/// `i` is the first separator position.
pub open spec fn is_first_sep(s: Seq<char>, i: int) -> bool {
    sep_at(s, i) && forall|j: int| 0 <= j < i ==> !sep_at(s, j)
}

/// The first separator position is unique.
pub proof fn lemma_first_sep_unique(s: Seq<char>, i: int, j: int)
    requires
        is_first_sep(s, i),
        is_first_sep(s, j),
    ensures
        i == j,
{
}

/// The complete blocks at the front of `s`, in order.
pub open spec fn split_blocks(s: Seq<char>) -> Seq<Seq<char>>
    decreases s.len(),
{
    if exists|i: int| is_first_sep(s, i) {
        let i = choose|i: int| is_first_sep(s, i);
        seq![s.subrange(0, i)] + split_blocks(s.subrange(i + 2, s.len() as int))
    } else {
        seq![]
    }
}

/// What is left after every complete block: a partial block, kept for the
/// next chunk.
pub open spec fn split_rest(s: Seq<char>) -> Seq<char>
    decreases s.len(),
{
    if exists|i: int| is_first_sep(s, i) {
        let i = choose|i: int| is_first_sep(s, i);
        split_rest(s.subrange(i + 2, s.len() as int))
    } else {
        s
    }
}

/// Peeling the first block off at its (unique) first separator.
proof fn lemma_split_step(s: Seq<char>, i: int)
    requires
        is_first_sep(s, i),
    ensures
        split_blocks(s) == seq![s.subrange(0, i)] + split_blocks(
            s.subrange(i + 2, s.len() as int),
        ),
        split_rest(s) == split_rest(s.subrange(i + 2, s.len() as int)),
{
    let i2 = choose|j: int| is_first_sep(s, j);
    lemma_first_sep_unique(s, i, i2);
}

/// The buffer the inbound event stream is assembled in. Chunks go in as they
/// arrive; complete blocks come out; a trailing partial block waits.
pub struct SseBuffer {
    pub buf: String,
}

impl SseBuffer {
    /// An empty buffer.
    pub fn new() -> (r: SseBuffer)
        ensures
            r.buf@ == Seq::<char>::empty(),
    {
        SseBuffer { buf: String::new() }
    }

    /// The first separator position of `s`, if any separator occurs.
    fn find_sep(s: &str) -> (r: Option<usize>)
        ensures
            match r {
                Some(i) => is_first_sep(s@, i as int),
                None => !has_sep(s@),
            },
    {
        let n = s.unicode_len();
        if n < 2 {
            return None;
        }
        let mut j: usize = 0;
        while j < n - 1
            invariant
                2 <= n,
                n == s@.len(),
                j <= n - 1,
                forall|k: int| 0 <= k < j ==> !sep_at(s@, k),
            decreases n - j,
        {
            if s.get_char(j) == '\n' && s.get_char(j + 1) == '\n' {
                return Some(j);
            }
            j += 1;
        }
        None
    }

    /// Feed one chunk; every block completed by it comes back, in order, and
    /// the partial tail stays buffered. Each returned block is determined by
    /// its own span of the stream alone.
    pub fn push_chunk(&mut self, chunk: &str) -> (events: Vec<String>)
        ensures
            events@.map_values(|e: String| e@) == split_blocks(old(self).buf@ + chunk@),
            final(self).buf@ == split_rest(old(self).buf@ + chunk@),
    {
        let ghost whole = old(self).buf@ + chunk@;
        self.buf.append(chunk);
        let mut events: Vec<String> = Vec::new();
        proof {
            assert(events@.map_values(|e: String| e@) =~= Seq::<Seq<char>>::empty());
            assert(Seq::<Seq<char>>::empty() + split_blocks(whole) =~= split_blocks(whole));
        }
        loop
            invariant
                whole == old(self).buf@ + chunk@,
                split_blocks(whole) == events@.map_values(|e: String| e@) + split_blocks(
                    self.buf@,
                ),
                split_rest(whole) == split_rest(self.buf@),
            decreases self.buf@.len(),
        {
            match Self::find_sep(self.buf.as_str()) {
                Some(i) => {
                    let ghost pre = self.buf@;
                    let n = self.buf.as_str().unicode_len();
                    let block = self.buf.as_str().substring_char(0, i).to_owned();
                    let rest = self.buf.as_str().substring_char(i + 2, n).to_owned();
                    proof {
                        lemma_split_step(pre, i as int);
                    }
                    let ghost evs = events@;
                    events.push(block);
                    self.buf = rest;
                    proof {
                        assert(events@.map_values(|e: String| e@) =~= evs.map_values(
                            |e: String| e@,
                        ).push(pre.subrange(0, i as int)));
                        assert(evs.map_values(|e: String| e@) + (seq![
                            pre.subrange(0, i as int),
                        ] + split_blocks(self.buf@)) =~= events@.map_values(|e: String| e@)
                            + split_blocks(self.buf@));
                    }
                },
                None => {
                    proof {
                        if exists|i: int| is_first_sep(self.buf@, i) {
                            let i = choose|i: int| is_first_sep(self.buf@, i);
                            assert(sep_at(self.buf@, i));
                            assert(has_sep(self.buf@));
                        }
                        assert(split_blocks(self.buf@) =~= Seq::<Seq<char>>::empty());
                        assert(events@.map_values(|e: String| e@) + Seq::<Seq<char>>::empty()
                            =~= events@.map_values(|e: String| e@));
                        assert(split_rest(self.buf@) == self.buf@);
                        assert(events@.map_values(|e: String| e@) =~= split_blocks(whole));
                    }
                    return events;
                },
            }
        }
    }
}

/// A newline sits at position `i`.
pub open spec fn nl_at(s: Seq<char>, i: int) -> bool {
    0 <= i < s.len() && s[i] == '\n'
}

/// `i` is the first newline position.
pub open spec fn is_first_nl(s: Seq<char>, i: int) -> bool {
    nl_at(s, i) && forall|j: int| 0 <= j < i ==> !nl_at(s, j)
}

/// The first newline position is unique.
pub proof fn lemma_first_nl_unique(s: Seq<char>, i: int, j: int)
    requires
        is_first_nl(s, i),
        is_first_nl(s, j),
    ensures
        i == j,
{
}

/// The lines of a block, split at newlines; the tail after the last newline
/// is a line too.
pub open spec fn split_lines(s: Seq<char>) -> Seq<Seq<char>>
    decreases s.len(),
{
    if exists|i: int| is_first_nl(s, i) {
        let i = choose|i: int| is_first_nl(s, i);
        seq![s.subrange(0, i)] + split_lines(s.subrange(i + 1, s.len() as int))
    } else {
        seq![s]
    }
}

/// Peeling the first line off at its (unique) first newline.
proof fn lemma_lines_step(s: Seq<char>, i: int)
    requires
        is_first_nl(s, i),
    ensures
        split_lines(s) == seq![s.subrange(0, i)] + split_lines(s.subrange(i + 1, s.len() as int)),
{
    let i2 = choose|j: int| is_first_nl(s, j);
    lemma_first_nl_unique(s, i, i2);
}

/// What a single line contributes: the payload after a `data: ` prefix.
pub open spec fn line_data(l: Seq<char>) -> Option<Seq<char>> {
    if l.len() >= 6 && l.subrange(0, 6) == "data: "@ {
        Some(l.subrange(6, l.len() as int))
    } else {
        None
    }
}

/// The payload of the first `data: ` line, if any line carries one.
pub open spec fn first_data(lines: Seq<Seq<char>>) -> Option<Seq<char>>
    decreases lines.len(),
{
    if lines.len() == 0 {
        None
    } else if line_data(lines[0]) is Some {
        line_data(lines[0])
    } else {
        first_data(lines.drop_first())
    }
}

/// What one block delivers: the payload of its first `data: ` line. A block
/// without one delivers nothing and is dropped.
pub open spec fn block_data(block: Seq<char>) -> Option<Seq<char>> {
    first_data(split_lines(block))
}

/// Extract the payload of a block's first `data: ` line; a block without one
/// is malformed and yields nothing.
pub fn parse_sse_event(block: &str) -> (r: Option<String>)
    ensures
        match r {
            Some(d) => block_data(block@) == Some(d@),
            None => block_data(block@) is None,
        },
{
    let n = block.unicode_len();
    let mut pos: usize = 0;
    proof {
        assert(block@.subrange(0, n as int) =~= block@);
    }
    loop
        invariant
            pos <= n,
            n == block@.len(),
            block_data(block@) == first_data(split_lines(block@.subrange(pos as int, n as int))),
        decreases n - pos,
    {
        proof {
            reveal_strlit("data: ");
        }
        let ghost suffix = block@.subrange(pos as int, n as int);
        let mut q: usize = pos;
        while q < n && block.get_char(q) != '\n'
            invariant
                pos <= q <= n,
                n == block@.len(),
                forall|k: int| pos <= k < q ==> block@[k] != '\n',
            decreases n - q,
        {
            q += 1;
        }
        let ghost line_v = block@.subrange(pos as int, q as int);
        proof {
            assert(forall|k: int|
                0 <= k < suffix.len() ==> suffix[k] == block@[pos + k]);
            if q < n {
                assert(nl_at(suffix, q - pos));
                assert(is_first_nl(suffix, q - pos));
                lemma_lines_step(suffix, q - pos);
                assert(suffix.subrange(0, q - pos) =~= line_v);
            } else {
                if exists|i: int| is_first_nl(suffix, i) {
                    let i = choose|i: int| is_first_nl(suffix, i);
                    assert(block@[pos + i] == '\n');
                    assert(false);
                }
                assert(split_lines(suffix) == seq![suffix]);
                assert(suffix =~= line_v);
            }
        }
        let line = block.substring_char(pos, q);
        if str_starts_with(line, "data: ") {
            proof {
                assert("data: "@.len() == 6);
                assert(line@.subrange(0, 6) == "data: "@);
                assert(line_data(line_v) == Some(line_v.subrange(6, line_v.len() as int)));
                if q < n {
                    assert((seq![line_v] + split_lines(
                        suffix.subrange(q - pos + 1, suffix.len() as int),
                    ))[0] == line_v);
                } else {
                    assert(seq![line_v][0] == line_v);
                }
                assert(first_data(split_lines(suffix)) == line_data(line_v));
            }
            let m = line.unicode_len();
            let data = line.substring_char(6, m);
            proof {
                assert(data@ =~= line_v.subrange(6, line_v.len() as int));
            }
            return Some(data.to_owned());
        }
        proof {
            assert(line_data(line_v) is None) by {
                if line_v.len() >= 6 && line_v.subrange(0, 6) == "data: "@ {
                    assert(seq_matches_at(line@, "data: "@, 0));
                }
            }
        }
        if q == n {
            proof {
                assert(split_lines(suffix) == seq![line_v]);
                assert(first_data(seq![line_v]) is None) by {
                    assert(seq![line_v][0] == line_v);
                    assert(seq![line_v].drop_first() =~= Seq::<Seq<char>>::empty());
                    assert(first_data(Seq::<Seq<char>>::empty()) is None);
                    assert(first_data(seq![line_v].drop_first()) is None);
                }
            }
            return None;
        }
        proof {
            let tail = suffix.subrange(q - pos + 1, suffix.len() as int);
            assert((seq![line_v] + split_lines(tail))[0] == line_v);
            assert((seq![line_v] + split_lines(tail)).drop_first() =~= split_lines(tail));
            assert(first_data(split_lines(suffix)) == first_data(split_lines(tail)));
            assert(tail =~= block@.subrange(q + 1, n as int));
        }
        pos = q + 1;
    }
}

/// The payloads a run of blocks delivers: each block's first `data: ` line,
/// blocks without one dropped.
pub open spec fn block_payloads(blocks: Seq<Seq<char>>) -> Seq<Seq<char>>
    decreases blocks.len(),
{
    if blocks.len() == 0 {
        Seq::empty()
    } else {
        block_payloads(blocks.drop_last()) + (match block_data(blocks.last()) {
            Some(d) => seq![d],
            None => Seq::<Seq<char>>::empty(),
        })
    }
}

impl SseBuffer {
    /// Feed one chunk and hand back the payload of every well-formed block
    /// it completed, in order; a malformed block costs only itself and the
    /// stream goes on.
    pub fn drain_chunk(&mut self, chunk: &str) -> (msgs: Vec<String>)
        ensures
            msgs@.map_values(|m: String| m@) == block_payloads(
                split_blocks(old(self).buf@ + chunk@),
            ),
            final(self).buf@ == split_rest(old(self).buf@ + chunk@),
    {
        let blocks = self.push_chunk(chunk);
        let ghost bl = blocks@.map_values(|e: String| e@);
        let mut msgs: Vec<String> = Vec::new();
        let n = blocks.len();
        let mut i: usize = 0;
        proof {
            assert(bl.subrange(0, 0) =~= Seq::<Seq<char>>::empty());
            assert(msgs@.map_values(|m: String| m@) =~= Seq::<Seq<char>>::empty());
        }
        while i < n
            invariant
                i <= n,
                n == blocks@.len(),
                bl == blocks@.map_values(|e: String| e@),
                msgs@.map_values(|m: String| m@) == block_payloads(bl.subrange(0, i as int)),
            decreases n - i,
        {
            proof {
                assert(bl.subrange(0, i + 1).drop_last() =~= bl.subrange(0, i as int));
                assert(bl.subrange(0, i + 1).last() == bl[i as int]);
            }
            let ghost before = msgs@.map_values(|m: String| m@);
            match parse_sse_event(blocks[i].as_str()) {
                Some(d) => {
                    proof {
                        assert(block_data(bl[i as int]) == Some(d@));
                    }
                    msgs.push(d);
                    proof {
                        assert(msgs@.map_values(|m: String| m@) =~= before + seq![d@]);
                    }
                },
                None => {
                    proof {
                        assert(before + Seq::<Seq<char>>::empty() =~= before);
                    }
                },
            }
            i += 1;
        }
        proof {
            assert(bl.subrange(0, n as int) =~= bl);
        }
        msgs
    }
}

/// The blank-line separator between blocks.
pub open spec fn block_sep() -> Seq<char> {
    seq!['\n', '\n']
}

/// A complete block at the front of the stream is framed off exactly, and
/// the rest of the stream is framed independently of it.
pub proof fn lemma_block_front(b: Seq<char>, rest: Seq<char>)
    requires
        !has_sep(b),
        b.len() == 0 || b.last() != '\n',
    ensures
        split_blocks(b + block_sep() + rest) =~= seq![b] + split_blocks(rest),
        split_rest(b + block_sep() + rest) == split_rest(rest),
{
    let s = b + block_sep() + rest;
    let bl = b.len() as int;
    assert(s[bl] == '\n' && s[bl + 1] == '\n');
    assert(sep_at(s, bl));
    assert forall|j: int| 0 <= j < bl implies !sep_at(s, j) by {
        if j < bl - 1 {
            assert(s[j] == b[j] && s[j + 1] == b[j + 1]);
            if sep_at(s, j) {
                assert(sep_at(b, j));
                assert(has_sep(b));
            }
        } else {
            assert(s[j] == b[b.len() - 1]);
        }
    }
    assert(is_first_sep(s, bl));
    lemma_split_step(s, bl);
    assert(s.subrange(0, bl) =~= b);
    assert(s.subrange(bl + 2, s.len() as int) =~= rest);
    assert(seq![s.subrange(0, bl)] + split_blocks(rest) =~= seq![b] + split_blocks(rest));
}

/// HTTP-transport resilience: one malformed block does not end the stream.
/// A stream of two complete blocks always frames exactly those two blocks,
/// so the second is delivered and parsed on its own, whatever the first
/// holds — a block that carries no `data: ` line, or an unparseable payload,
/// costs only itself.
pub proof fn lemma_bad_block_isolated(bad: Seq<char>, good: Seq<char>)
    requires
        !has_sep(bad),
        bad.len() == 0 || bad.last() != '\n',
        !has_sep(good),
        good.len() == 0 || good.last() != '\n',
    ensures
        split_blocks(bad + block_sep() + (good + block_sep())) =~= seq![bad, good],
        split_rest(bad + block_sep() + (good + block_sep())) == Seq::<char>::empty(),
{
    lemma_block_front(bad, good + block_sep());
    lemma_block_front(good, Seq::empty());
    assert(good + block_sep() + Seq::<char>::empty() =~= good + block_sep());
    assert(!has_sep(Seq::<char>::empty()));
    assert(split_blocks(Seq::<char>::empty()) =~= Seq::<Seq<char>>::empty()) by {
        if exists|i: int| is_first_sep(Seq::<char>::empty(), i) {
            let i = choose|i: int| is_first_sep(Seq::<char>::empty(), i);
            assert(sep_at(Seq::<char>::empty(), i));
        }
    }
    assert(split_blocks(good + block_sep()) =~= seq![good]);
    assert(seq![bad] + seq![good] =~= seq![bad, good]);
}

} // verus!
