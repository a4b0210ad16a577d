//! Locating the schedule and the command inside one crontab line.
use vstd::prelude::*;

verus! {

/// The characters that `char::is_whitespace` accepts: Unicode `White_Space`.
pub open spec fn is_space(c: char) -> bool {
    ||| ('\u{9}' <= c && c <= '\u{d}')
    ||| c == ' '
    ||| c == '\u{85}'
    ||| c == '\u{a0}'
    ||| c == '\u{1680}'
    ||| ('\u{2000}' <= c && c <= '\u{200a}')
    ||| c == '\u{2028}'
    ||| c == '\u{2029}'
    ||| c == '\u{202f}'
    ||| c == '\u{205f}'
    ||| c == '\u{3000}'
}

/// Whether `c` is whitespace.
pub fn space_char(c: char) -> (r: bool)
    ensures
        r == is_space(c),
{
    ('\u{9}' <= c && c <= '\u{d}') || c == ' ' || c == '\u{85}' || c == '\u{a0}' || c == '\u{1680}'
        || ('\u{2000}' <= c && c <= '\u{200a}') || c == '\u{2028}' || c == '\u{2029}'
        || c == '\u{202f}' || c == '\u{205f}' || c == '\u{3000}'
}


/// `s` without its leading whitespace.
pub open spec fn trim_start(s: Seq<char>) -> Seq<char>
    decreases s.len(),
{
    if s.len() > 0 && is_space(s[0]) {
        trim_start(s.drop_first())
    } else {
        s
    }
}

/// `s` without its trailing whitespace.
pub open spec fn trim_end(s: Seq<char>) -> Seq<char>
    decreases s.len(),
{
    if s.len() > 0 && is_space(s.last()) {
        trim_end(s.drop_last())
    } else {
        s
    }
}

/// `s` without surrounding whitespace, as `str::trim` gives it.
pub open spec fn trimmed(s: Seq<char>) -> Seq<char> {
    trim_end(trim_start(s))
}

/// Position `i` holds the first character of a whitespace-separated token.
pub open spec fn starts_token(s: Seq<char>, i: int) -> bool {
    &&& 0 <= i < s.len()
    &&& !is_space(s[i])
    &&& (i == 0 || is_space(s[i - 1]))
}

/// How many tokens start strictly before position `i`.
pub open spec fn tokens_before(s: Seq<char>, i: int) -> nat
    decreases i,
{
    if i <= 0 {
        0
    } else {
        tokens_before(s, i - 1) + if starts_token(s, i - 1) {
            1nat
        } else {
            0nat
        }
    }
}

/// Position `i` is where token number `n` (counted from zero) starts.
pub open spec fn is_token_start(s: Seq<char>, n: nat, i: int) -> bool {
    starts_token(s, i) && tokens_before(s, i) == n
}

/// Token counts only grow along the text.
pub proof fn lemma_tokens_before_monotone(s: Seq<char>, i: int, j: int)
    requires
        0 <= i <= j,
    ensures
        tokens_before(s, i) <= tokens_before(s, j),
        starts_token(s, i) && i < j ==> tokens_before(s, i) < tokens_before(s, j),
    decreases j - i,
{
    if i < j {
        lemma_tokens_before_monotone(s, i, j - 1);
        if starts_token(s, i) && i == j - 1 {
            assert(tokens_before(s, j) == tokens_before(s, i) + 1);
        }
    }
}

/// A token number has at most one start.
pub proof fn lemma_token_start_unique(s: Seq<char>, n: nat, i: int, j: int)
    requires
        is_token_start(s, n, i),
        is_token_start(s, n, j),
    ensures
        i == j,
{
    if i < j {
        lemma_tokens_before_monotone(s, i, j);
    } else if j < i {
        lemma_tokens_before_monotone(s, j, i);
    }
}

/// Every character of `s` is whitespace.
pub open spec fn all_space(s: Seq<char>) -> bool {
    forall|i: int| 0 <= i < s.len() ==> is_space(#[trigger] s[i])
}

proof fn lemma_trim_start_spaces(lw: Seq<char>, x: Seq<char>)
    requires
        all_space(lw),
        x.len() > 0,
        !is_space(x[0]),
    ensures
        trim_start(lw + x) == x,
    decreases lw.len(),
{
    if lw.len() == 0 {
        assert(lw + x =~= x);
    } else {
        assert((lw + x).drop_first() =~= lw.drop_first() + x);
        lemma_trim_start_spaces(lw.drop_first(), x);
    }
}

proof fn lemma_trim_end_spaces(y: Seq<char>, tw: Seq<char>)
    requires
        all_space(tw),
        y.len() > 0,
        !is_space(y.last()),
    ensures
        trim_end(y + tw) == y,
    decreases tw.len(),
{
    if tw.len() == 0 {
        assert(y + tw =~= y);
    } else {
        assert((y + tw).drop_last() =~= y + tw.drop_last());
        lemma_trim_end_spaces(y, tw.drop_last());
    }
}

/// Token counts within a prefix do not depend on what follows it.
proof fn lemma_tokens_before_prefix(a: Seq<char>, b: Seq<char>, i: int)
    requires
        0 <= i <= a.len(),
    ensures
        tokens_before(a + b, i) == tokens_before(a, i),
    decreases i,
{
    if i > 0 {
        lemma_tokens_before_prefix(a, b, i - 1);
        assert(starts_token(a + b, i - 1) == starts_token(a, i - 1));
    }
}

/// No token starts inside a run of whitespace.
proof fn lemma_tokens_before_spaces(t: Seq<char>, from: int, i: int)
    requires
        0 <= from <= i <= t.len(),
        forall|j: int| from <= j < i ==> is_space(#[trigger] t[j]),
    ensures
        tokens_before(t, i) == tokens_before(t, from),
    decreases i - from,
{
    if from < i {
        lemma_tokens_before_spaces(t, from, i - 1);
        assert(!starts_token(t, i - 1));
    }
}

/// A line written as leading whitespace, a schedule `s` of as many tokens as
/// its syntax takes, whitespace `w`, a command `c` that has no surrounding
/// whitespace, and trailing whitespace, holds exactly `c` as its command:
/// its inner spacing is kept and it is never split; the trimmed line is
/// `s + w + c`, and `s + w` is its schedule text.
pub proof fn lemma_command_of_written_line(
    lw: Seq<char>,
    s: Seq<char>,
    w: Seq<char>,
    c: Seq<char>,
    tw: Seq<char>,
)
    requires
        all_space(lw),
        all_space(tw),
        w.len() > 0,
        all_space(w),
        c.len() > 0,
        !is_space(c[0]),
        !is_space(c.last()),
        s.len() > 0,
        s[0] != '#',
        !is_space(s[0]),
        !is_space(s.last()),
        tokens_before(s, s.len() as int) == schedule_fields(s),
    ensures
        ({
            let t = trimmed(lw + s + w + c + tw);
            &&& t == s + w + c
            &&& !is_skipped(t)
            &&& has_command(t)
            &&& command_text(t) == c
            &&& schedule_text(t) == s + w
        }),
{
    let t = s + w + c;
    assert(lw + s + w + c + tw =~= lw + t + tw);
    assert(lw + t + tw =~= lw + (t + tw));
    assert((t + tw)[0] == s[0]);
    lemma_trim_start_spaces(lw, t + tw);
    assert(t.last() == c.last());
    lemma_trim_end_spaces(t, tw);
    assert(trimmed(lw + s + w + c + tw) == t);
    let p: int = (s.len() + w.len()) as int;
    assert(t =~= s + (w + c));
    lemma_tokens_before_prefix(s, w + c, s.len() as int);
    assert forall|j: int| s.len() <= j < p implies is_space(#[trigger] t[j]) by {
        assert(t[j] == w[j - s.len()]);
    }
    lemma_tokens_before_spaces(t, s.len() as int, p);
    assert(t[p] == c[0]);
    assert(t[p - 1] == w.last());
    assert(schedule_fields(t) == schedule_fields(s));
    assert(is_token_start(t, schedule_fields(t), p));
    lemma_token_start_unique(t, schedule_fields(t), p, command_start(t));
    assert(command_text(t) =~= c);
    assert(schedule_text(t) =~= s + w);
}

/// The text of `s` between character positions `from` and `to`.
pub fn char_range(s: &str, from: usize, to: usize) -> (r: &str)
    requires
        from <= to <= s@.len(),
    ensures
        r@ == s@.subrange(from as int, to as int),
{
    s.substring_char(from, to)
}

/// `line` without surrounding whitespace.
pub fn trim(line: &str) -> (r: &str)
    ensures
        r@ == trimmed(line@),
{
    let ghost s = line@;
    let len = line.unicode_len();
    let mut a: usize = 0;
    assert(s.subrange(0, len as int) =~= s);
    while a < len
        invariant
            a <= len,
            len == s.len(),
            s == line@,
            trim_start(s) == trim_start(s.subrange(a as int, len as int)),
        ensures
            a <= len,
            len == s.len(),
            trim_start(s) == trim_start(s.subrange(a as int, len as int)),
            a < len ==> !is_space(s[a as int]),
        decreases len - a,
    {
        if !space_char(line.get_char(a)) {
            break;
        }
        assert(s.subrange(a as int, len as int).drop_first() =~= s.subrange(a + 1, len as int));
        a = a + 1;
    }
    let ghost front = s.subrange(a as int, len as int);
    assert(trim_start(s) == front) by {
        if a == len {
            assert(front.len() == 0);
        }
    }
    let mut b: usize = len;
    while b > a
        invariant
            a <= b <= len,
            len == s.len(),
            s == line@,
            trim_end(front) == trim_end(s.subrange(a as int, b as int)),
        ensures
            a <= b <= len,
            trim_end(front) == trim_end(s.subrange(a as int, b as int)),
            a < b ==> !is_space(s[b - 1]),
        decreases b,
    {
        if !space_char(line.get_char(b - 1)) {
            break;
        }
        assert(s.subrange(a as int, b as int).drop_last() =~= s.subrange(a as int, b - 1));
        b = b - 1;
    }
    assert(trim_end(front) == s.subrange(a as int, b as int)) by {
        if a == b {
            assert(s.subrange(a as int, b as int).len() == 0);
        }
    }
    char_range(line, a, b)
}

/// Where token number `n` of `s` starts, or `None` when `s` has no more than
/// `n` tokens.
pub fn token_start(s: &str, n: usize) -> (r: Option<usize>)
    ensures
        r matches Some(i) ==> is_token_start(s@, n as nat, i as int),
        r is None <==> tokens_before(s@, s@.len() as int) <= n,
{
    let len = s.unicode_len();
    let mut i: usize = 0;
    let mut count: usize = 0;
    let mut after_space = true;
    while i < len
        invariant
            i <= len,
            len == s@.len(),
            count == tokens_before(s@, i as int),
            count <= n,
            after_space == (i == 0 || is_space(s@[i - 1])),
        decreases len - i,
    {
        let c = s.get_char(i);
        let is_sp = space_char(c);
        if !is_sp && after_space {
            if count == n {
                proof {
                    lemma_tokens_before_monotone(s@, i as int, len as int);
                }
                return Some(i);
            }
            count = count + 1;
        }
        after_space = is_sp;
        i = i + 1;
    }
    None
}


/// A trimmed line that holds no job: blank, or a comment.
pub open spec fn is_skipped(t: Seq<char>) -> bool {
    t.len() == 0 || t[0] == '#'
}

/// How many tokens the schedule of trimmed line `t` takes: one `@` alias, or
/// five fields.
pub open spec fn schedule_fields(t: Seq<char>) -> nat {
    if t.len() > 0 && t[0] == '@' {
        1
    } else {
        5
    }
}

/// Trimmed line `t` has a token after its schedule, where the command starts.
pub open spec fn has_command(t: Seq<char>) -> bool {
    exists|i: int| is_token_start(t, schedule_fields(t), i)
}

/// Where the command of trimmed line `t` starts.
pub open spec fn command_start(t: Seq<char>) -> int {
    choose|i: int| is_token_start(t, schedule_fields(t), i)
}

/// The schedule text of trimmed line `t`: everything before its command.
pub open spec fn schedule_text(t: Seq<char>) -> Seq<char> {
    t.subrange(0, command_start(t))
}

/// The command of trimmed line `t`: the rest of the line, as written.
pub open spec fn command_text(t: Seq<char>) -> Seq<char> {
    t.subrange(command_start(t), t.len() as int)
}

/// What one crontab line holds.
pub enum Parsed {
    /// A blank line or a comment.
    Skipped,
    /// A schedule and the command it runs.
    Entry { schedule: String, command: String },
    /// Too few schedule fields before the command.
    TooFewFields,
}

/// Splits a crontab line into its schedule and its command; the command
/// keeps its inner spacing exactly.
pub fn split_line(line: &str) -> (r: Parsed)
    ensures
        r is Skipped <==> is_skipped(trimmed(line@)),
        r is TooFewFields <==> !is_skipped(trimmed(line@)) && !has_command(trimmed(line@)),
        r matches Parsed::Entry { schedule, command } ==> {
            &&& has_command(trimmed(line@))
            &&& schedule@ == schedule_text(trimmed(line@))
            &&& command@ == command_text(trimmed(line@))
        },
{
    let t = trim(line);
    let ghost ts = t@;
    let len = t.unicode_len();
    if len == 0 || t.get_char(0) == '#' {
        return Parsed::Skipped;
    }
    let fields: usize = if t.get_char(0) == '@' {
        1
    } else {
        5
    };
    assert(fields == schedule_fields(ts));
    match token_start(t, fields) {
        None => {
            assert(!has_command(ts)) by {
                if has_command(ts) {
                    let i = choose|i: int| is_token_start(ts, schedule_fields(ts), i);
                    lemma_tokens_before_monotone(ts, i, len as int);
                }
            }
            Parsed::TooFewFields
        },
        Some(i) => {
            assert(has_command(ts));
            proof {
                lemma_token_start_unique(ts, schedule_fields(ts), i as int, command_start(ts));
            }
            Parsed::Entry { schedule: char_range(t, 0, i).to_owned(), command: char_range(t, i, len).to_owned() }
        },
    }
}

/// Splitting a line and joining its two parts gives the trimmed line back,
/// and the joined text splits again into the very same schedule and command:
/// the command text survives the round trip exactly. The command starts at a
/// token, right after the whitespace that ends the schedule.
pub proof fn lemma_split_round_trip(t: Seq<char>)
    requires
        !is_skipped(t),
        has_command(t),
    ensures
        schedule_text(t) + command_text(t) == t,
        command_text(t).len() > 0,
        !is_space(command_text(t)[0]),
        schedule_text(t).len() > 0,
        is_space(schedule_text(t).last()),
        ({
            let joined = schedule_text(t) + command_text(t);
            &&& !is_skipped(joined)
            &&& has_command(joined)
            &&& schedule_text(joined) == schedule_text(t)
            &&& command_text(joined) == command_text(t)
        }),
{
    let i = command_start(t);
    assert(is_token_start(t, schedule_fields(t), i));
    assert(i != 0);
    assert(schedule_text(t) + command_text(t) =~= t);
}

} // verus!
