//! The per-file line-classification state machine: every physical line of a
//! file counts as exactly one of blank, comment, or code.

use vstd::prelude::*;
use crate::config::LanguageInfo;
use crate::text::{
    bytes_eq, ends_with, line_split, spec_ends_with, spec_starts_with, spec_trim, starts_with,
    trim, lemma_first_nl_at,
};

verus! {

/// What a single line counts as.
#[derive(Clone, Copy, Debug, PartialEq, Eq)]
pub enum LineClass {
    Blank,
    Comment,
    Code,
}

/// Classifier state: `None` outside any multi-line comment, or the (start,
/// end) delimiter pair of the block comment that is currently open.
pub type SpecState = Option<(Seq<u8>, Seq<u8>)>;

/// Per-file counts of blank, comment, and code lines.
#[derive(Clone, Copy, Debug, PartialEq, Eq)]
pub struct Counts {
    pub blank: usize,
    pub comment: usize,
    pub code: usize,
}

/// Whether the trimmed line starts with one of the single-line comment
/// prefixes.
pub open spec fn matches_single(l: Seq<u8>, singles: Seq<Seq<u8>>) -> bool {
    exists|k: int| 0 <= k < singles.len() && spec_starts_with(l, singles[k])
}

/// Walks the multi-line delimiter pairs from index `i` in registration order
/// and decides what the trimmed, non-blank line `l` counts as, together with
/// the state for the next line. While a pair is open, only that pair is
/// consulted; its start marker seen again closes it. A pair whose start
/// marker opens on this very line closes on it only if the line also ends
/// with the end marker and is long enough to hold both markers.
pub open spec fn step_multi(
    l: Seq<u8>,
    st: SpecState,
    pairs: Seq<(Seq<u8>, Seq<u8>)>,
    i: int,
) -> (LineClass, SpecState)
    decreases pairs.len() - i,
{
    if i < 0 || i >= pairs.len() {
        (LineClass::Code, st)
    } else {
        let (s, e) = pairs[i];
        match st {
            Some(d) => {
                if d != (s, e) {
                    step_multi(l, st, pairs, i + 1)
                } else if spec_starts_with(l, s) {
                    (LineClass::Comment, None)
                } else {
                    (LineClass::Comment, if spec_ends_with(l, e) { None } else { st })
                }
            },
            None => {
                if spec_starts_with(l, s) {
                    let closes = spec_ends_with(l, e) && l.len() >= s.len() + e.len();
                    (LineClass::Comment, if closes { None } else { Some((s, e)) })
                } else {
                    step_multi(l, st, pairs, i + 1)
                }
            },
        }
    }
}

/// Classifies one raw line: blank if it trims to nothing; a single-line
/// comment only outside any open block comment; otherwise whatever the
/// multi-line delimiters decide; code if nothing matches.
pub open spec fn step_line(
    raw: Seq<u8>,
    st: SpecState,
    singles: Seq<Seq<u8>>,
    pairs: Seq<(Seq<u8>, Seq<u8>)>,
) -> (LineClass, SpecState) {
    let l = spec_trim(raw);
    if l.len() == 0 {
        (LineClass::Blank, st)
    } else if st is None && matches_single(l, singles) {
        (LineClass::Comment, st)
    } else {
        step_multi(l, st, pairs, 0)
    }
}

/// Folds [`step_line`] over a sequence of lines, counting how many fall in
/// each class.
pub open spec fn classify_lines(
    lines: Seq<Seq<u8>>,
    st: SpecState,
    singles: Seq<Seq<u8>>,
    pairs: Seq<(Seq<u8>, Seq<u8>)>,
) -> (nat, nat, nat)
    decreases lines.len(),
{
    if lines.len() == 0 {
        (0, 0, 0)
    } else {
        let (c, st2) = step_line(lines[0], st, singles, pairs);
        let rest = classify_lines(lines.drop_first(), st2, singles, pairs);
        match c {
            LineClass::Blank => (rest.0 + 1, rest.1, rest.2),
            LineClass::Comment => (rest.0, rest.1 + 1, rest.2),
            LineClass::Code => (rest.0, rest.1, rest.2 + 1),
        }
    }
}

/// The (blank, comment, code) counts of a whole file, started outside any
/// multi-line comment.
pub open spec fn spec_classify(
    content: Seq<u8>,
    singles: Seq<Seq<u8>>,
    pairs: Seq<(Seq<u8>, Seq<u8>)>,
) -> (nat, nat, nat) {
    classify_lines(line_split(content), None, singles, pairs)
}

/// The delimiter pair an executable state index denotes.
pub open spec fn state_view(st: Option<usize>, pairs: Seq<(Seq<u8>, Seq<u8>)>) -> SpecState {
    match st {
        None => None,
        Some(k) => Some(pairs[k as int]),
    }
}

/// Adds two count triples componentwise.
pub open spec fn add3(a: (nat, nat, nat), b: (nat, nat, nat)) -> (nat, nat, nat) {
    (a.0 + b.0, a.1 + b.1, a.2 + b.2)
}

/// How many of the lines trim to nothing.
pub open spec fn count_blank(lines: Seq<Seq<u8>>) -> nat
    decreases lines.len(),
{
    if lines.len() == 0 {
        0
    } else {
        (if spec_trim(lines[0]).len() == 0 {
            1nat
        } else {
            0nat
        }) + count_blank(lines.drop_first())
    }
}

proof fn lemma_classify_lines_all_blank(
    lines: Seq<Seq<u8>>,
    st: SpecState,
    singles: Seq<Seq<u8>>,
    pairs: Seq<(Seq<u8>, Seq<u8>)>,
)
    requires
        forall|i: int| 0 <= i < lines.len() ==> spec_trim(#[trigger] lines[i]).len() == 0,
    ensures
        classify_lines(lines, st, singles, pairs) == (lines.len(), 0nat, 0nat),
    decreases lines.len(),
{
    if lines.len() > 0 {
        assert(spec_trim(lines[0]).len() == 0);
        let rest = lines.drop_first();
        assert(forall|i: int| 0 <= i < rest.len() ==> rest[i] == lines[i + 1]);
        lemma_classify_lines_all_blank(rest, st, singles, pairs);
    }
}

/// Law: a file whose content is only whitespace (or empty) has every line
/// counted blank — blank equals the number of lines, comment and code are
/// zero, under any comment syntax.
pub proof fn lemma_whitespace_only(
    content: Seq<u8>,
    singles: Seq<Seq<u8>>,
    pairs: Seq<(Seq<u8>, Seq<u8>)>,
)
    requires
        crate::text::all_space(content),
    ensures
        spec_classify(content, singles, pairs) == (line_split(content).len(), 0nat, 0nat),
{
    crate::text::lemma_line_split_all_space(content);
    let lines = line_split(content);
    assert forall|i: int| 0 <= i < lines.len() implies spec_trim(#[trigger] lines[i]).len()
        == 0 by {
        crate::text::lemma_trim_all_space(lines[i]);
    }
    lemma_classify_lines_all_blank(lines, None, singles, pairs);
}

/// Skipping delimiter pairs whose start marker does not open the line leaves
/// the outcome unchanged, outside any open comment.
pub proof fn lemma_step_multi_skip(
    l: Seq<u8>,
    pairs: Seq<(Seq<u8>, Seq<u8>)>,
    a: int,
    b: int,
)
    requires
        0 <= a <= b <= pairs.len(),
        forall|j: int| a <= j < b ==> !spec_starts_with(l, #[trigger] pairs[j].0),
    ensures
        step_multi(l, None, pairs, a) == step_multi(l, None, pairs, b),
    decreases b - a,
{
    if a < b {
        assert(!spec_starts_with(l, pairs[a].0));
        lemma_step_multi_skip(l, pairs, a + 1, b);
    }
}

proof fn lemma_classify_lines_no_marker(
    lines: Seq<Seq<u8>>,
    singles: Seq<Seq<u8>>,
    pairs: Seq<(Seq<u8>, Seq<u8>)>,
)
    requires
        forall|i: int|
            0 <= i < lines.len() ==> !matches_single(spec_trim(#[trigger] lines[i]), singles),
        forall|i: int, j: int|
            0 <= i < lines.len() && 0 <= j < pairs.len() ==> !spec_starts_with(
                spec_trim(#[trigger] lines[i]),
                #[trigger] pairs[j].0,
            ),
    ensures
        classify_lines(lines, None, singles, pairs) == (
            count_blank(lines),
            0nat,
            (lines.len() - count_blank(lines)) as nat,
        ),
    decreases lines.len(),
{
    if lines.len() > 0 {
        let l = spec_trim(lines[0]);
        assert(!matches_single(l, singles));
        assert(forall|j: int| 0 <= j < pairs.len() ==> !spec_starts_with(l, #[trigger] pairs[j].0));
        if l.len() > 0 {
            lemma_step_multi_skip(l, pairs, 0, pairs.len() as int);
            assert(step_multi(l, None, pairs, pairs.len() as int) == (
                LineClass::Code,
                None::<(Seq<u8>, Seq<u8>)>,
            ));
            assert(step_line(lines[0], None, singles, pairs) == (
                LineClass::Code,
                None::<(Seq<u8>, Seq<u8>)>,
            ));
        } else {
            assert(step_line(lines[0], None, singles, pairs) == (
                LineClass::Blank,
                None::<(Seq<u8>, Seq<u8>)>,
            ));
        }
        let rest = lines.drop_first();
        assert(forall|i: int| 0 <= i < rest.len() ==> rest[i] == lines[i + 1]);
        lemma_classify_lines_no_marker(rest, singles, pairs);
        lemma_count_blank_le(rest);
        assert(count_blank(lines) == (if l.len() == 0 {
            1nat
        } else {
            0nat
        }) + count_blank(rest));
    }
}

proof fn lemma_count_blank_le(lines: Seq<Seq<u8>>)
    ensures
        count_blank(lines) <= lines.len(),
    decreases lines.len(),
{
    if lines.len() > 0 {
        lemma_count_blank_le(lines.drop_first());
    }
}

/// Law: when no single-line prefix and no multi-line start marker matches
/// any line of a file, no line counts as comment — every line is blank or
/// code.
pub proof fn lemma_no_comment_markers(
    content: Seq<u8>,
    singles: Seq<Seq<u8>>,
    pairs: Seq<(Seq<u8>, Seq<u8>)>,
)
    requires
        forall|i: int|
            0 <= i < line_split(content).len() ==> !matches_single(
                spec_trim(#[trigger] line_split(content)[i]),
                singles,
            ),
        forall|i: int, j: int|
            0 <= i < line_split(content).len() && 0 <= j < pairs.len() ==> !spec_starts_with(
                spec_trim(#[trigger] line_split(content)[i]),
                #[trigger] pairs[j].0,
            ),
    ensures
        spec_classify(content, singles, pairs) == (
            count_blank(line_split(content)),
            0nat,
            (line_split(content).len() - count_blank(line_split(content))) as nat,
        ),
{
    lemma_classify_lines_no_marker(line_split(content), singles, pairs);
}

/// Law: classification is deterministic — two classifications of the same
/// content under the same comment syntax yield identical counts.
pub proof fn lemma_classify_deterministic(
    a: (nat, nat, nat),
    b: (nat, nat, nat),
    content: Seq<u8>,
    singles: Seq<Seq<u8>>,
    pairs: Seq<(Seq<u8>, Seq<u8>)>,
)
    requires
        a == spec_classify(content, singles, pairs),
        b == spec_classify(content, singles, pairs),
    ensures
        a == b,
{
}

/// Law: a block comment that opens on a line closes on that same line only
/// if the trimmed line also ends with the end marker and is at least as long
/// as start and end marker together. In particular, a line that is exactly
/// the start marker alone stays open, while a line of exactly the start
/// marker directly followed by the end marker closes.
pub proof fn lemma_same_line_close(
    raw: Seq<u8>,
    singles: Seq<Seq<u8>>,
    pairs: Seq<(Seq<u8>, Seq<u8>)>,
    i: int,
)
    requires
        spec_trim(raw).len() > 0,
        !matches_single(spec_trim(raw), singles),
        0 <= i < pairs.len(),
        spec_starts_with(spec_trim(raw), pairs[i].0),
        forall|j: int| 0 <= j < i ==> !spec_starts_with(spec_trim(raw), #[trigger] pairs[j].0),
    ensures
        step_line(raw, None, singles, pairs) == (
            LineClass::Comment,
            if spec_ends_with(spec_trim(raw), pairs[i].1) && spec_trim(raw).len() >= pairs[i].0.len()
                + pairs[i].1.len() {
                None::<(Seq<u8>, Seq<u8>)>
            } else {
                Some((pairs[i].0, pairs[i].1))
            },
        ),
{
    let l = spec_trim(raw);
    lemma_step_multi_skip(l, pairs, 0, i);
}

/// Classifies one line and advances the state, mirroring [`step_line`].
fn step_line_exec(line: &[u8], st: Option<usize>, info: &LanguageInfo) -> (r: (
    LineClass,
    Option<usize>,
))
    requires
        st matches Some(k) ==> k < info.multi@.len(),
    ensures
        (r.0, state_view(r.1, info@.multi)) == step_line(
            line@,
            state_view(st, info@.multi),
            info@.single,
            info@.multi,
        ),
        r.1 matches Some(k) ==> k < info.multi@.len(),
{
    let t = trim(line);
    let ghost stv = state_view(st, info@.multi);
    if t.len() == 0 {
        return (LineClass::Blank, st);
    }
    if st.is_none() {
        let mut k: usize = 0;
        while k < info.single.len()
            invariant
                k <= info.single@.len(),
                info@.single.len() == info.single@.len(),
                t@ == spec_trim(line@),
                t@.len() > 0,
                st is None,
                stv == state_view(st, info@.multi),
                forall|m: int| 0 <= m < k ==> !spec_starts_with(t@, info@.single[m]),
            decreases info.single@.len() - k,
        {
            proof {
                assert(info@.single[k as int] == info.single@[k as int]@);
            }
            if starts_with(t, info.single[k].as_slice()) {
                proof {
                    assert(matches_single(t@, info@.single));
                }
                return (LineClass::Comment, None);
            }
            k += 1;
        }
        assert(!matches_single(t@, info@.single));
    }
    let mut k: usize = 0;
    while k < info.multi.len()
        invariant
            k <= info.multi@.len(),
            info@.multi.len() == info.multi@.len(),
            t@ == spec_trim(line@),
            t@.len() > 0,
            stv == state_view(st, info@.multi),
            st matches Some(m) ==> m < info.multi@.len(),
            st is None ==> !matches_single(t@, info@.single),
            step_multi(t@, stv, info@.multi, 0) == step_multi(t@, stv, info@.multi, k as int),
        decreases info.multi@.len() - k,
    {
        let ghost pairs = info@.multi;
        proof {
            assert(pairs[k as int] == (info.multi@[k as int].0@, info.multi@[k as int].1@));
        }
        match st {
            Some(m) => {
                proof {
                    assert(pairs[m as int] == (info.multi@[m as int].0@, info.multi@[
                        m as int
                    ].1@));
                }
                let same = bytes_eq(info.multi[k].0.as_slice(), info.multi[m].0.as_slice())
                    && bytes_eq(info.multi[k].1.as_slice(), info.multi[m].1.as_slice());
                if same {
                    if starts_with(t, info.multi[k].0.as_slice()) {
                        return (LineClass::Comment, None);
                    }
                    if ends_with(t, info.multi[k].1.as_slice()) {
                        return (LineClass::Comment, None);
                    }
                    return (LineClass::Comment, st);
                }
                proof {
                    assert(pairs[m as int] != pairs[k as int]);
                    assert(step_multi(t@, stv, pairs, k as int) == step_multi(
                        t@,
                        stv,
                        pairs,
                        k as int + 1,
                    ));
                }
            },
            None => {
                if starts_with(t, info.multi[k].0.as_slice()) {
                    let s_len = info.multi[k].0.len();
                    let e_len = info.multi[k].1.len();
                    if ends_with(t, info.multi[k].1.as_slice()) && t.len() - s_len >= e_len {
                        return (LineClass::Comment, None);
                    }
                    return (LineClass::Comment, Some(k));
                }
                proof {
                    assert(step_multi(t@, stv, pairs, k as int) == step_multi(
                        t@,
                        stv,
                        pairs,
                        k as int + 1,
                    ));
                }
            },
        }
        k += 1;
    }
    (LineClass::Code, st)
}

/// Counts the blank, comment, and code lines of `content` under the comment
/// syntax of `info`, line by line, exactly as [`spec_classify`] states.
pub fn classify(content: &Vec<u8>, info: &LanguageInfo) -> (r: Counts)
    ensures
        (r.blank as nat, r.comment as nat, r.code as nat) == spec_classify(
            content@,
            info@.single,
            info@.multi,
        ),
{
    let n = content.len();
    let mut blank: usize = 0;
    let mut comment: usize = 0;
    let mut code: usize = 0;
    let mut st: Option<usize> = None;
    let mut i: usize = 0;
    proof {
        assert(content@.skip(0) =~= content@);
    }
    while i < n
        invariant
            n == content@.len(),
            i <= n,
            blank + comment + code <= i,
            st matches Some(m) ==> m < info.multi@.len(),
            spec_classify(content@, info@.single, info@.multi) == add3(
                (blank as nat, comment as nat, code as nat),
                classify_lines(
                    line_split(content@.skip(i as int)),
                    state_view(st, info@.multi),
                    info@.single,
                    info@.multi,
                ),
            ),
        decreases n - i,
    {
        let mut j: usize = i;
        while j < n && content[j] != 0x0a
            invariant
                n == content@.len(),
                i <= j <= n,
                forall|m: int| i <= m < j ==> content@[m] != 0x0a,
            decreases n - j,
        {
            j += 1;
        }
        let ghost rest = content@.skip(i as int);
        proof {
            assert(forall|m: int|
                0 <= m < j - i ==> rest[m] == content@[i + m] && rest[m] != 0x0a);
            if j < n {
                assert(rest[j - i] == content@[j as int]);
            }
            lemma_first_nl_at(rest, j - i);
        }
        let line: &[u8] = &content.as_slice()[i..j];
        let (cls, st2) = step_line_exec(line, st, info);
        proof {
            let singles = info@.single;
            let pairs = info@.multi;
            let stv = state_view(st, pairs);
            let stv2 = state_view(st2, pairs);
            let inext: int = if j < n { j + 1 } else { n as int };
            let l_next = line_split(content@.skip(inext));
            if j < n {
                assert(rest.subrange(0, j - i) =~= line@);
                assert(rest.subrange((j - i) + 1, rest.len() as int) =~= content@.skip(inext));
                assert(line_split(rest) == seq![line@] + l_next);
            } else {
                assert(rest =~= line@);
                assert(line_split(rest) == seq![rest]);
                assert(content@.skip(inext) =~= Seq::<u8>::empty());
                assert(line_split(rest) =~= seq![line@] + l_next);
            }
            let lines = line_split(rest);
            assert(lines[0] == line@);
            assert(lines.drop_first() =~= l_next);
            assert(step_line(line@, stv, singles, pairs) == (cls, stv2));
            let restc = classify_lines(l_next, stv2, singles, pairs);
            assert(classify_lines(lines, stv, singles, pairs) == match cls {
                LineClass::Blank => (restc.0 + 1, restc.1, restc.2),
                LineClass::Comment => (restc.0, restc.1 + 1, restc.2),
                LineClass::Code => (restc.0, restc.1, restc.2 + 1),
            });
        }
        match cls {
            LineClass::Blank => {
                blank += 1;
            },
            LineClass::Comment => {
                comment += 1;
            },
            LineClass::Code => {
                code += 1;
            },
        }
        st = st2;
        if j < n {
            i = j + 1;
        } else {
            i = n;
        }
    }
    proof {
        assert(content@.skip(n as int) =~= Seq::<u8>::empty());
    }
    Counts { blank, comment, code }
}

} // verus!
