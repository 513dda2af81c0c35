//! Dashboard helpers: the bounded log shown in the terminal dashboard, text
//! truncation for panel cells, and the notional of a plan.
use std::collections::VecDeque;

use vstd::prelude::*;

use crate::decimal::{add_opt, mul_opt, Dec};
use crate::strategy::SizePlan;

verus! {

broadcast use vstd::std_specs::vecdeque::group_vec_dequeue_axioms;

/// Most log lines kept for the dashboard.
pub const LOG_CAP: usize = 80;

/// Whether `c` has the Unicode `White_Space` property (as
/// `char::is_whitespace`): tab through carriage return, space, next line,
/// no-break space, ogham space mark, the spaces U+2000 to U+200A, line and
/// paragraph separators, narrow no-break space, medium mathematical space
/// and ideographic space.
pub open spec fn is_white_space(c: char) -> bool {
    let u = c as u32;
    ||| 0x09 <= u <= 0x0d
    ||| u == 0x20
    ||| u == 0x85
    ||| u == 0xa0
    ||| u == 0x1680
    ||| 0x2000 <= u <= 0x200a
    ||| u == 0x2028
    ||| u == 0x2029
    ||| u == 0x202f
    ||| u == 0x205f
    ||| u == 0x3000
}

fn char_is_whitespace(c: char) -> (r: bool)
    ensures
        r == is_white_space(c),
{
    let u = c as u32;
    (0x09 <= u && u <= 0x0d) || u == 0x20 || u == 0x85 || u == 0xa0 || u == 0x1680 || (0x2000 <= u
        && u <= 0x200a) || u == 0x2028 || u == 0x2029 || u == 0x202f || u == 0x205f || u == 0x3000
}

/// The text without its trailing whitespace (as `str::trim_end`: trailing
/// characters with the `White_Space` property are removed).
pub open spec fn spec_trim_end(s: Seq<char>) -> Seq<char>
    decreases s.len(),
{
    if s.len() > 0 && is_white_space(s.last()) {
        spec_trim_end(s.drop_last())
    } else {
        s
    }
}

/// The text without its trailing whitespace, as a new `String`.
fn trim_end(s: &str) -> (r: String)
    ensures
        r@ == spec_trim_end(s@),
{
    let n = s.unicode_len();
    let mut k: usize = n;
    proof {
        assert(s@.take(n as int) =~= s@);
    }
    loop
        invariant
            n == s@.len(),
            k <= n,
            spec_trim_end(s@.take(k as int)) == spec_trim_end(s@),
        ensures
            k <= n,
            spec_trim_end(s@.take(k as int)) == spec_trim_end(s@),
            k == 0 || !is_white_space(s@[k - 1]),
        decreases k,
    {
        if k == 0 {
            break;
        }
        let c = s.get_char(k - 1);
        if !char_is_whitespace(c) {
            break;
        }
        proof {
            assert(s@.take(k as int).drop_last() =~= s@.take(k - 1));
        }
        k = k - 1;
    }
    proof {
        let t = s@.take(k as int);
        if k > 0 {
            assert(t.last() == s@[k - 1]);
        }
        assert(spec_trim_end(t) == t);
        assert(s@.subrange(0, k as int) =~= t);
    }
    String::from_str(s.substring_char(0, k))
}

/// Name for what `String::from_utf8_lossy` returns: the bytes decoded as
/// UTF-8, each invalid sequence replaced by U+FFFD.
pub uninterp spec fn lossy_text(bytes: Seq<u8>) -> Seq<char>;

/// `String::from_utf8_lossy`, as an owned `String`. Its result is named `lossy_text`.
#[verifier::external_body]
fn utf8_lossy(bytes: &[u8]) -> (r: String)
    ensures
        r@ == lossy_text(bytes@),
{
    String::from_utf8_lossy(bytes).into_owned()
}

/// The pieces of `s` between newlines (as `str::split('\n')`: an empty text
/// gives one empty piece, a trailing newline a final empty piece).
pub open spec fn split_lines(s: Seq<char>) -> Seq<Seq<char>>
    decreases s.len(),
{
    if s.len() == 0 {
        seq![Seq::<char>::empty()]
    } else {
        let p = split_lines(s.drop_last());
        if s.last() == '\n' {
            p.push(Seq::<char>::empty())
        } else {
            p.update(p.len() - 1, p.last().push(s.last()))
        }
    }
}

/// The log after one written piece: the piece without trailing whitespace
/// is appended unless it is empty, dropping the oldest line when the log is full.
pub open spec fn log_after_piece(lines: Seq<Seq<char>>, piece: Seq<char>) -> Seq<Seq<char>> {
    let t = spec_trim_end(piece);
    if t.len() == 0 {
        lines
    } else if lines.len() >= LOG_CAP {
        lines.drop_first().push(t)
    } else {
        lines.push(t)
    }
}

/// The log after the pieces, in order.
pub open spec fn log_after_pieces(lines: Seq<Seq<char>>, pieces: Seq<Seq<char>>) -> Seq<Seq<char>>
    decreases pieces.len(),
{
    if pieces.len() == 0 {
        lines
    } else {
        log_after_piece(log_after_pieces(lines, pieces.drop_last()), pieces.last())
    }
}

/// The most recent log lines, oldest first.
pub struct LogBuffer {
    inner: VecDeque<String>,
}

impl LogBuffer {
    /// At most [`LOG_CAP`] lines are kept.
    #[verifier::type_invariant]
    spec fn bounded(self) -> bool {
        self.inner@.len() <= LOG_CAP
    }
}

impl View for LogBuffer {
    type V = Seq<Seq<char>>;

    closed spec fn view(&self) -> Seq<Seq<char>> {
        self.inner@.map_values(|s: String| s@)
    }
}

proof fn lemma_split_lines_nonempty(s: Seq<char>)
    ensures
        split_lines(s).len() >= 1,
    decreases s.len(),
{
    if s.len() > 0 {
        lemma_split_lines_nonempty(s.drop_last());
    }
}

impl LogBuffer {
    pub fn new() -> (r: Self)
        ensures
            r@ == Seq::<Seq<char>>::empty(),
    {
        let r = LogBuffer { inner: VecDeque::new() };
        proof {
            assert(r@ =~= Seq::<Seq<char>>::empty());
        }
        r
    }

    /// A copy of the kept lines, oldest first.
    pub fn lines(&self) -> (r: Vec<String>)
        ensures
            r@.map_values(|s: String| s@) == self@,
            r@.len() <= LOG_CAP,
    {
        proof {
            use_type_invariant(self);
        }
        let mut out: Vec<String> = Vec::new();
        let n = self.inner.len();
        let mut i: usize = 0;
        while i < n
            invariant
                n == self.inner@.len(),
                i <= n,
                out@.map_values(|s: String| s@) =~= self@.take(i as int),
            decreases n - i,
        {
            let line = self.inner[i].clone();
            out.push(line);
            proof {
                assert(self@.take(i + 1) =~= self@.take(i as int).push(self.inner@[i as int]@));
            }
            i = i + 1;
        }
        proof {
            assert(self@.take(n as int) =~= self@);
        }
        out
    }

    /// Append one line (without trailing whitespace) unless it is empty,
    /// dropping the oldest line when the log is full.
    fn push_piece(&mut self, piece: &str)
        ensures
            final(self)@ == log_after_piece(old(self)@, piece@),
            final(self)@.len() <= LOG_CAP,
    {
        proof {
            use_type_invariant(&*self);
        }
        let line = trim_end(piece);
        if line.as_str().is_empty() {
            return;
        }
        let ghost before = self.inner@;
        let mut inner = VecDeque::new();
        std::mem::swap(&mut inner, &mut self.inner);
        if inner.len() >= LOG_CAP {
            inner.pop_front();
        }
        let ghost t = line@;
        inner.push_back(line);
        self.inner = inner;
        proof {
            if before.len() >= LOG_CAP {
                assert(self@ =~= old(self)@.drop_first().push(t));
            } else {
                assert(self@ =~= old(self)@.push(t));
            }
        }
    }

    /// Record written text: each newline-separated piece becomes a line,
    /// without trailing whitespace; empty pieces are skipped; at most
    /// [`LOG_CAP`] lines are kept, the oldest dropped first.
    pub fn write_text(&mut self, text: &str)
        ensures
            final(self)@ == log_after_pieces(old(self)@, split_lines(text@)),
            final(self)@.len() <= LOG_CAP,
    {
        proof {
            use_type_invariant(&*self);
        }
        let n = text.unicode_len();
        let mut start: usize = 0;
        let mut i: usize = 0;
        while i < n
            invariant
                n == text@.len(),
                start <= i <= n,
                self@.len() <= LOG_CAP,
                split_lines(text@.take(i as int)).len() >= 1,
                split_lines(text@.take(i as int)).last() == text@.subrange(start as int, i as int),
                self@ == log_after_pieces(
                    old(self)@,
                    split_lines(text@.take(i as int)).drop_last(),
                ),
            decreases n - i,
        {
            let c = text.get_char(i);
            let ghost p = split_lines(text@.take(i as int));
            proof {
                assert(text@.take(i + 1).drop_last() =~= text@.take(i as int));
                assert(text@.take(i + 1).last() == c);
                lemma_split_lines_nonempty(text@.take(i + 1));
            }
            if c == '\n' {
                let piece = text.substring_char(start, i);
                self.push_piece(piece);
                proof {
                    assert(split_lines(text@.take(i + 1)) == p.push(Seq::<char>::empty()));
                    assert(split_lines(text@.take(i + 1)).drop_last() =~= p);
                    assert(p =~= p.drop_last().push(p.last()));
                    assert(text@.subrange((i + 1) as int, (i + 1) as int) =~= Seq::<char>::empty());
                }
                start = i + 1;
            } else {
                proof {
                    let q = split_lines(text@.take(i + 1));
                    assert(q == p.update(p.len() - 1, p.last().push(c)));
                    assert(q.drop_last() =~= p.drop_last());
                    assert(q.last() =~= text@.subrange(start as int, (i + 1) as int));
                }
            }
            i = i + 1;
        }
        let piece = text.substring_char(start, n);
        self.push_piece(piece);
        proof {
            let p = split_lines(text@.take(n as int));
            assert(text@.take(n as int) =~= text@);
            assert(p =~= p.drop_last().push(p.last()));
        }
    }
}

impl LogBuffer {
    /// Record written bytes: decoded as UTF-8 (invalid sequences replaced),
    /// then as [`LogBuffer::write_text`].
    pub fn write_bytes(&mut self, bytes: &[u8])
        ensures
            final(self)@ == log_after_pieces(old(self)@, split_lines(lossy_text(bytes@))),
            final(self)@.len() <= LOG_CAP,
    {
        let text = utf8_lossy(bytes);
        self.write_text(text.as_str());
    }
}

impl Default for LogBuffer {
    fn default() -> (r: Self)
        ensures
            r@ == Seq::<Seq<char>>::empty(),
    {
        LogBuffer::new()
    }
}

/// The log never holds more than [`LOG_CAP`] lines; a written piece that is
/// not blank once trimmed becomes the newest line, after the kept earlier
/// lines (all of them, or all but the oldest when the log was full); a
/// blank piece changes nothing.
pub proof fn law_log_is_bounded_and_newest_last(lines: Seq<Seq<char>>, piece: Seq<char>)
    requires
        lines.len() <= LOG_CAP,
    ensures
        log_after_piece(lines, piece).len() <= LOG_CAP,
        spec_trim_end(piece).len() == 0 ==> log_after_piece(lines, piece) == lines,
        spec_trim_end(piece).len() > 0 ==> {
            &&& log_after_piece(lines, piece).last() == spec_trim_end(piece)
            &&& log_after_piece(lines, piece).drop_last() == (if lines.len() >= LOG_CAP {
                lines.drop_first()
            } else {
                lines
            })
        },
{
    let t = spec_trim_end(piece);
    if t.len() > 0 {
        if lines.len() >= LOG_CAP {
            assert(lines.drop_first().push(t).drop_last() =~= lines.drop_first());
        } else {
            assert(lines.push(t).drop_last() =~= lines);
        }
    }
}

/// The lines that written pieces leave: each piece without trailing
/// whitespace, in order, the blank ones left out.
pub open spec fn kept_lines(pieces: Seq<Seq<char>>) -> Seq<Seq<char>>
    decreases pieces.len(),
{
    if pieces.len() == 0 {
        Seq::<Seq<char>>::empty()
    } else {
        let k = kept_lines(pieces.drop_last());
        let t = spec_trim_end(pieces.last());
        if t.len() == 0 {
            k
        } else {
            k.push(t)
        }
    }
}

/// The last `n` elements of `s` (all of them when there are fewer).
pub open spec fn last_n<A>(s: Seq<A>, n: nat) -> Seq<A> {
    if s.len() <= n {
        s
    } else {
        s.subrange(s.len() - n, s.len() as int)
    }
}

proof fn lemma_last_n_push<A>(s: Seq<A>, x: A, n: nat)
    requires
        n >= 1,
    ensures
        last_n(s.push(x), n) == (if last_n(s, n).len() >= n {
            last_n(s, n).drop_first().push(x)
        } else {
            last_n(s, n).push(x)
        }),
{
    if s.len() + 1 <= n {
        assert(last_n(s, n) == s);
    } else if s.len() <= n {
        assert(s.len() == n);
        assert(last_n(s.push(x), n) =~= s.drop_first().push(x));
    } else {
        assert(last_n(s.push(x), n) =~= last_n(s, n).drop_first().push(x));
    }
}

/// Writing pieces to a log of at most [`LOG_CAP`] lines leaves the last
/// [`LOG_CAP`] lines of the earlier lines followed by the pieces' lines
/// (each piece without trailing whitespace, blank pieces left out): the
/// oldest lines are evicted first.
pub proof fn law_log_keeps_the_last_lines(lines: Seq<Seq<char>>, pieces: Seq<Seq<char>>)
    requires
        lines.len() <= LOG_CAP,
    ensures
        log_after_pieces(lines, pieces) == last_n(lines + kept_lines(pieces), LOG_CAP as nat),
    decreases pieces.len(),
{
    if pieces.len() == 0 {
        assert(lines + kept_lines(pieces) =~= lines);
    } else {
        law_log_keeps_the_last_lines(lines, pieces.drop_last());
        let k = kept_lines(pieces.drop_last());
        let t = spec_trim_end(pieces.last());
        let before = log_after_pieces(lines, pieces.drop_last());
        if t.len() > 0 {
            assert(lines + k.push(t) =~= (lines + k).push(t));
            lemma_last_n_push(lines + k, t, LOG_CAP as nat);
        }
    }
}

/// `s` cut to at most `max` characters: when longer, its first `max - 1`
/// characters (none when `max` is zero) followed by an ellipsis.
pub open spec fn spec_truncate(s: Seq<char>, max: usize) -> Seq<char> {
    if s.len() <= max {
        s
    } else {
        s.take(if max >= 1 {
            max - 1
        } else {
            0
        }) + seq!['\u{2026}']
    }
}

/// Cut a label or status text to fit a panel cell.
pub fn truncate(s: &str, max: usize) -> (r: String)
    ensures
        r@ == spec_truncate(s@, max),
{
    let n = s.unicode_len();
    if n <= max {
        return String::from_str(s);
    }
    let keep: usize = if max >= 1 {
        max - 1
    } else {
        0
    };
    let head = String::from_str(s.substring_char(0, keep));
    let ellipsis = "\u{2026}";
    proof {
        reveal_strlit("\u{2026}");
    }
    let r = head.concat(ellipsis);
    proof {
        assert(r@ =~= spec_truncate(s@, max));
    }
    r
}

/// `qty_a * px_a + qty_b * px_b` for a plan and both limit prices; `None`
/// when a price is missing or an amount overflows.
pub open spec fn spec_plan_notional(plan: SizePlan, px_a: Option<Dec>, px_b: Option<Dec>) -> Option<
    Dec,
> {
    match (px_a, px_b) {
        (Some(pa), Some(pb)) => match mul_opt(plan.qty_a, pa) {
            None => None,
            Some(na) => match mul_opt(plan.qty_b, pb) {
                None => None,
                Some(nb) => add_opt(na, nb),
            },
        },
        _ => None,
    }
}

/// The approximate USDC notional of a plan at the given limit prices.
pub fn plan_notional(plan: &SizePlan, px_a: Option<Dec>, px_b: Option<Dec>) -> (r: Option<Dec>)
    ensures
        r == spec_plan_notional(*plan, px_a, px_b),
{
    let pa = match px_a {
        Some(p) => p,
        None => return None,
    };
    let pb = match px_b {
        Some(p) => p,
        None => return None,
    };
    let na = match plan.qty_a.checked_mul(pa) {
        Some(x) => x,
        None => return None,
    };
    let nb = match plan.qty_b.checked_mul(pb) {
        Some(x) => x,
        None => return None,
    };
    na.checked_add(nb)
}

} // verus!
