//! Reading the remote queue listing: which lines are entries for active
//! jobs, and whether a recorded queue identifier still appears among
//! them. A line qualifies as an entry exactly when its first token ends
//! in an ordinal suffix — the rank column of the spooler's listing;
//! header and blank lines fall out by the same rule.
use vstd::prelude::*;
use vstd::string::StringExecFns;
use vstd::string::StrSliceExecFns;

verus! {

pub open spec fn is_ws(c: char) -> bool {
    c == ' ' || c == '\t' || c == '\r'
}

/// Length of the run of whitespace at the front of `s`.
pub open spec fn ws_run_len(s: Seq<char>) -> nat
    decreases s.len(),
{
    if s.len() > 0 && is_ws(s[0]) {
        1 + ws_run_len(s.drop_first())
    } else {
        0
    }
}

/// Length of the token (run of non-whitespace) at the front of `s`.
pub open spec fn token_run_len(s: Seq<char>) -> nat
    decreases s.len(),
{
    if s.len() > 0 && !is_ws(s[0]) && s[0] != '\n' {
        1 + token_run_len(s.drop_first())
    } else {
        0
    }
}

/// Length of the line (run up to a newline) at the front of `s`.
pub open spec fn line_run_len(s: Seq<char>) -> nat
    decreases s.len(),
{
    if s.len() > 0 && s[0] != '\n' {
        1 + line_run_len(s.drop_first())
    } else {
        0
    }
}

pub proof fn lemma_ws_run_len_spec(s: Seq<char>)
    ensures
        ws_run_len(s) <= s.len(),
        forall|i: int| 0 <= i < ws_run_len(s) ==> is_ws(#[trigger] s[i]),
        ws_run_len(s) < s.len() ==> !is_ws(s[ws_run_len(s) as int]),
    decreases s.len(),
{
    if s.len() > 0 && is_ws(s[0]) {
        lemma_ws_run_len_spec(s.drop_first());
        assert forall|i: int| 0 <= i < ws_run_len(s) implies is_ws(#[trigger] s[i]) by {
            if i > 0 {
                assert(s[i] == s.drop_first()[i - 1]);
            }
        }
        if ws_run_len(s) < s.len() {
            assert(s[ws_run_len(s) as int] == s.drop_first()[ws_run_len(s.drop_first()) as int]);
        }
    }
}

pub proof fn lemma_token_run_len_spec(s: Seq<char>)
    ensures
        token_run_len(s) <= s.len(),
        forall|i: int|
            0 <= i < token_run_len(s) ==> !is_ws(#[trigger] s[i]) && s[i] != '\n',
        token_run_len(s) < s.len() ==> (is_ws(s[token_run_len(s) as int]) || s[token_run_len(
            s,
        ) as int] == '\n'),
    decreases s.len(),
{
    if s.len() > 0 && !is_ws(s[0]) && s[0] != '\n' {
        lemma_token_run_len_spec(s.drop_first());
        assert forall|i: int|
            0 <= i < token_run_len(s) implies !is_ws(#[trigger] s[i]) && s[i] != '\n' by {
            if i > 0 {
                assert(s[i] == s.drop_first()[i - 1]);
            }
        }
        if token_run_len(s) < s.len() {
            assert(s[token_run_len(s) as int] == s.drop_first()[token_run_len(
                s.drop_first(),
            ) as int]);
        }
    }
}

pub proof fn lemma_line_run_len_spec(s: Seq<char>)
    ensures
        line_run_len(s) <= s.len(),
        forall|i: int| 0 <= i < line_run_len(s) ==> (#[trigger] s[i]) != '\n',
        line_run_len(s) < s.len() ==> s[line_run_len(s) as int] == '\n',
    decreases s.len(),
{
    if s.len() > 0 && s[0] != '\n' {
        lemma_line_run_len_spec(s.drop_first());
        assert forall|i: int| 0 <= i < line_run_len(s) implies (#[trigger] s[i]) != '\n' by {
            if i > 0 {
                assert(s[i] == s.drop_first()[i - 1]);
            }
        }
        if line_run_len(s) < s.len() {
            assert(s[line_run_len(s) as int] == s.drop_first()[line_run_len(
                s.drop_first(),
            ) as int]);
        }
    }
}

// ---------- Entry lines ----------

/// The first token of a line: what is left after leading whitespace, up
/// to the next whitespace; empty where the line holds no token.
pub open spec fn first_token(s: Seq<char>) -> Seq<char>
    decreases s.len(),
{
    if s.len() == 0 {
        Seq::empty()
    } else if is_ws(s[0]) {
        first_token(s.drop_first())
    } else {
        s.take(token_run_len(s) as int)
    }
}

/// The rank column of a listing entry ends in an ordinal suffix.
pub open spec fn ends_with_ordinal(t: Seq<char>) -> bool {
    t.len() >= 2 && {
        let a = t[t.len() - 2];
        let b = t[t.len() - 1];
        (a == 's' && b == 't') || (a == 'n' && b == 'd') || (a == 'r' && b == 'd') || (a == 't'
            && b == 'h')
    }
}

/// A line is a listing entry exactly when its first token ends in an
/// ordinal suffix.
pub open spec fn is_entry_line(line: Seq<char>) -> bool {
    ends_with_ordinal(first_token(line))
}

/// Skipping leading whitespace does not change the first token.
pub proof fn lemma_first_token_skip_ws(s: Seq<char>)
    ensures
        first_token(s) == first_token(s.skip(ws_run_len(s) as int)),
    decreases s.len(),
{
    lemma_ws_run_len_spec(s);
    if s.len() > 0 && is_ws(s[0]) {
        lemma_first_token_skip_ws(s.drop_first());
        lemma_ws_run_len_spec(s.drop_first());
        assert(s.skip(ws_run_len(s) as int) =~= s.drop_first().skip(
            ws_run_len(s.drop_first()) as int,
        ));
    } else {
        assert(s.skip(0) =~= s);
    }
}

/// Whether the identifier occurs as a whitespace-separated token of the
/// line.
pub open spec fn line_mentions(s: Seq<char>, ident: Seq<char>) -> bool
    decreases s.len(),
    via line_mentions_decreases
{
    if s.len() == 0 {
        false
    } else if is_ws(s[0]) || s[0] == '\n' {
        line_mentions(s.drop_first(), ident)
    } else {
        s.take(token_run_len(s) as int) == ident || line_mentions(
            s.skip(token_run_len(s) as int),
            ident,
        )
    }
}

#[via_fn]
proof fn line_mentions_decreases(s: Seq<char>, ident: Seq<char>) {
    lemma_token_run_len_spec(s);
}

/// Skipping leading whitespace does not change which tokens a line
/// holds.
pub proof fn lemma_line_mentions_skip_ws(s: Seq<char>, ident: Seq<char>)
    ensures
        line_mentions(s, ident) == line_mentions(s.skip(ws_run_len(s) as int), ident),
    decreases s.len(),
{
    lemma_ws_run_len_spec(s);
    if s.len() > 0 && is_ws(s[0]) {
        lemma_line_mentions_skip_ws(s.drop_first(), ident);
        lemma_ws_run_len_spec(s.drop_first());
        assert(s.skip(ws_run_len(s) as int) =~= s.drop_first().skip(
            ws_run_len(s.drop_first()) as int,
        ));
    } else {
        assert(s.skip(0) =~= s);
    }
}

/// The entry lines of a whole listing, in order: each line up to a
/// newline, kept when it qualifies.
pub open spec fn entry_lines(s: Seq<char>) -> Seq<Seq<char>>
    decreases s.len(),
    via entry_lines_decreases
{
    let k = line_run_len(s) as int;
    let line = s.take(k);
    let this = if is_entry_line(line) {
        seq![line]
    } else {
        Seq::<Seq<char>>::empty()
    };
    if k == s.len() {
        this
    } else {
        this + entry_lines(s.skip(k + 1))
    }
}

#[via_fn]
proof fn entry_lines_decreases(s: Seq<char>) {
    lemma_line_run_len_spec(s);
}

/// Whether the identifier occurs as a token of any entry line.
pub open spec fn listing_mentions(entries: Seq<Seq<char>>, ident: Seq<char>) -> bool {
    exists|i: int| 0 <= i < entries.len() && line_mentions(#[trigger] entries[i], ident)
}

pub open spec fn line_views(v: Seq<String>) -> Seq<Seq<char>> {
    v.map_values(|s: String| s@)
}

// ---------- Executable scanning ----------

fn char_is_ws(c: char) -> (r: bool)
    ensures
        r == is_ws(c),
{
    c == ' ' || c == '\t' || c == '\r'
}

/// Position just past the whitespace run starting at `pos`.
fn ws_end(s: &str, pos: usize) -> (r: usize)
    requires
        pos <= s@.len(),
    ensures
        r == pos + ws_run_len(s@.skip(pos as int)),
        pos <= r <= s@.len(),
{
    let ghost ss = s@.skip(pos as int);
    let ghost k = ws_run_len(ss) as int;
    proof {
        lemma_ws_run_len_spec(ss);
    }
    let len = s.unicode_len();
    let mut i = pos;
    loop
        invariant
            pos <= i <= pos + k,
            pos + k <= s@.len() == len,
            ss == s@.skip(pos as int),
            k == ws_run_len(ss) as int,
            ws_run_len(ss) <= ss.len(),
            forall|j: int| 0 <= j < k ==> is_ws(#[trigger] ss[j]),
            k < ss.len() ==> !is_ws(ss[k]),
        ensures
            i == pos + k,
        decreases pos + k - i,
    {
        if i == len {
            assert(i - pos == k);
            break ;
        }
        let c = s.get_char(i);
        assert(c == ss[i - pos]);
        if !char_is_ws(c) {
            assert(i - pos == k) by {
                if i - pos < k {
                    assert(is_ws(ss[i - pos]));
                }
            }
            break ;
        }
        assert(i - pos < k) by {
            if i - pos == k {
                assert(!is_ws(ss[k]));
            }
        }
        i = i + 1;
    }
    i
}

/// Position just past the token starting at `pos`.
fn token_end(s: &str, pos: usize) -> (r: usize)
    requires
        pos <= s@.len(),
    ensures
        r == pos + token_run_len(s@.skip(pos as int)),
        pos <= r <= s@.len(),
{
    let ghost ss = s@.skip(pos as int);
    let ghost k = token_run_len(ss) as int;
    proof {
        lemma_token_run_len_spec(ss);
    }
    let len = s.unicode_len();
    let mut i = pos;
    loop
        invariant
            pos <= i <= pos + k,
            pos + k <= s@.len() == len,
            ss == s@.skip(pos as int),
            k == token_run_len(ss) as int,
            token_run_len(ss) <= ss.len(),
            forall|j: int| 0 <= j < k ==> !is_ws(#[trigger] ss[j]) && ss[j] != '\n',
            k < ss.len() ==> (is_ws(ss[k]) || ss[k] == '\n'),
        ensures
            i == pos + k,
        decreases pos + k - i,
    {
        if i == len {
            assert(i - pos == k);
            break ;
        }
        let c = s.get_char(i);
        assert(c == ss[i - pos]);
        if char_is_ws(c) || c == '\n' {
            assert(i - pos == k) by {
                if i - pos < k {
                    assert(!is_ws(ss[i - pos]) && ss[i - pos] != '\n');
                }
            }
            break ;
        }
        assert(i - pos < k) by {
            if i - pos == k {
                assert(is_ws(ss[k]) || ss[k] == '\n');
            }
        }
        i = i + 1;
    }
    i
}

/// Position just past the line starting at `pos`.
fn line_end(s: &str, pos: usize) -> (r: usize)
    requires
        pos <= s@.len(),
    ensures
        r == pos + line_run_len(s@.skip(pos as int)),
        pos <= r <= s@.len(),
        r < s@.len() ==> s@[r as int] == '\n',
{
    let ghost ss = s@.skip(pos as int);
    let ghost k = line_run_len(ss) as int;
    proof {
        lemma_line_run_len_spec(ss);
    }
    let len = s.unicode_len();
    let mut i = pos;
    loop
        invariant
            pos <= i <= pos + k,
            pos + k <= s@.len() == len,
            ss == s@.skip(pos as int),
            k == line_run_len(ss) as int,
            line_run_len(ss) <= ss.len(),
            forall|j: int| 0 <= j < k ==> (#[trigger] ss[j]) != '\n',
            k < ss.len() ==> ss[k] == '\n',
        ensures
            i == pos + k,
        decreases pos + k - i,
    {
        if i == len {
            assert(i - pos == k);
            break ;
        }
        let c = s.get_char(i);
        assert(c == ss[i - pos]);
        if c == '\n' {
            assert(i - pos == k) by {
                if i - pos < k {
                    assert(ss[i - pos] != '\n');
                }
            }
            break ;
        }
        assert(i - pos < k) by {
            if i - pos == k {
                assert(ss[k] == '\n');
            }
        }
        i = i + 1;
    }
    proof {
        if i - pos < ss.len() {
            assert(ss[i - pos] == s@[i as int]);
        }
    }
    i
}

/// Whether a line qualifies as a listing entry.
pub fn is_entry_line_str(line: &str) -> (r: bool)
    ensures
        r == is_entry_line(line@),
{
    proof {
        lemma_first_token_skip_ws(line@);
        assert(line@.skip(0) =~= line@);
    }
    let a = ws_end(line, 0);
    let len = line.unicode_len();
    let ghost rest = line@.skip(a as int);
    if a == len {
        proof {
            assert(rest.len() == 0);
            assert(first_token(line@) == Seq::<char>::empty());
        }
        return false;
    }
    proof {
        lemma_ws_run_len_spec(line@);
        assert(rest[0] == line@[a as int]);
        assert(!is_ws(rest[0]));
    }
    let b = token_end(line, a);
    let ghost tok = first_token(line@);
    proof {
        assert(tok == rest.take(token_run_len(rest) as int));
        assert(tok.len() == b - a);
        assert(forall|j: int| 0 <= j < tok.len() ==> (#[trigger] tok[j]) == line@[a + j]);
    }
    if b - a < 2 {
        return false;
    }
    let x = line.get_char(b - 2);
    let y = line.get_char(b - 1);
    proof {
        assert(tok[tok.len() - 2] == line@[b - 2]);
        assert(tok[tok.len() - 1] == line@[b - 1]);
    }
    (x == 's' && y == 't') || (x == 'n' && y == 'd') || (x == 'r' && y == 'd') || (x == 't' && y
        == 'h')
}

/// Whether the identifier occurs as a token of the line.
pub fn line_mentions_str(line: &str, ident: &str) -> (r: bool)
    ensures
        r == line_mentions(line@, ident@),
{
    let len = line.unicode_len();
    let needle = String::from_str(ident);
    let mut pos: usize = 0;
    proof {
        assert(line@.skip(0) =~= line@);
    }
    loop
        invariant
            pos <= line@.len() == len,
            needle@ == ident@,
            line_mentions(line@, ident@) == line_mentions(line@.skip(pos as int), ident@),
        decreases line@.len() - pos,
    {
        let ghost before = line@.skip(pos as int);
        proof {
            lemma_line_mentions_skip_ws(before, ident@);
        }
        let a = ws_end(line, pos);
        let ghost rest = line@.skip(a as int);
        proof {
            assert(rest =~= before.skip(ws_run_len(before) as int));
        }
        if a == len {
            proof {
                assert(rest.len() == 0);
            }
            return false;
        }
        proof {
            lemma_ws_run_len_spec(before);
            assert(rest[0] == line@[a as int]);
            assert(!is_ws(rest[0]));
        }
        let ghost was_newline = rest[0] == '\n';
        let b = token_end(line, a);
        if b == a {
            // the character here is a newline: the recursion steps over it
            proof {
                lemma_token_run_len_spec(rest);
                assert(rest[0] == '\n');
                assert(line_mentions(rest, ident@) == line_mentions(rest.drop_first(), ident@));
                assert(rest.drop_first() =~= line@.skip(a + 1));
            }
            pos = a + 1;
            continue ;
        }
        proof {
            lemma_token_run_len_spec(rest);
            assert(rest[0] != '\n');
            assert(line_mentions(rest, ident@) == (rest.take(token_run_len(rest) as int) == ident@
                || line_mentions(rest.skip(token_run_len(rest) as int), ident@)));
        }
        let tok = line.substring_char(a, b);
        let tok_string = String::from_str(tok);
        proof {
            assert(tok@ =~= rest.take(token_run_len(rest) as int));
            assert(rest.skip(token_run_len(rest) as int) =~= line@.skip(b as int));
        }
        if tok_string == needle {
            return true;
        }
        pos = b;
    }
}

/// The remote queue's own identifier as read from a submission
/// response: the first whitespace-separated token of the response, where
/// the response yields one at all.
pub open spec fn spec_queue_identifier(s: Seq<char>) -> Option<Seq<char>> {
    if first_token(s).len() == 0 {
        None
    } else {
        Some(first_token(s))
    }
}

/// Reads the external queue identifier out of a submission response.
pub fn parse_queue_identifier(output: &str) -> (r: Option<String>)
    ensures
        match r {
            None => spec_queue_identifier(output@) is None,
            Some(t) => spec_queue_identifier(output@) == Some(t@),
        },
{
    proof {
        lemma_first_token_skip_ws(output@);
        assert(output@.skip(0) =~= output@);
    }
    let len = output.unicode_len();
    let a = ws_end(output, 0);
    let ghost rest = output@.skip(a as int);
    if a == len {
        proof {
            assert(rest.len() == 0);
        }
        return None;
    }
    proof {
        lemma_ws_run_len_spec(output@);
        assert(rest[0] == output@[a as int]);
        assert(!is_ws(rest[0]));
    }
    let b = token_end(output, a);
    if b == a {
        proof {
            lemma_token_run_len_spec(rest);
            assert(rest.take(0) =~= Seq::<char>::empty());
        }
        return None;
    }
    let t = output.substring_char(a, b);
    proof {
        assert(t@ =~= rest.take(token_run_len(rest) as int));
    }
    Some(String::from_str(t))
}

/// The entry lines of a queue listing, in order.
pub fn parse_queue_listing(output: &str) -> (r: Vec<String>)
    ensures
        line_views(r@) == entry_lines(output@),
{
    let len = output.unicode_len();
    let mut out: Vec<String> = Vec::new();
    let mut pos: usize = 0;
    let mut done = false;
    proof {
        assert(output@.skip(0) =~= output@);
    }
    while !done
        invariant
            pos <= output@.len() == len,
            !done ==> entry_lines(output@) == line_views(out@) + entry_lines(
                output@.skip(pos as int),
            ),
            done ==> entry_lines(output@) == line_views(out@),
        decreases output@.len() - pos + (if done {
            0int
        } else {
            1int
        }),
    {
        let ghost suffix = output@.skip(pos as int);
        let ghost k = line_run_len(suffix) as int;
        let end = line_end(output, pos);
        let line = output.substring_char(pos, end);
        proof {
            assert(line@ =~= suffix.take(k));
        }
        let keep = is_entry_line_str(line);
        let ghost prev = out@;
        if keep {
            out.push(String::from_str(line));
            proof {
                assert(line_views(out@) =~= line_views(prev).push(line@));
                assert(line_views(prev) + seq![line@] =~= line_views(out@));
            }
        }
        if end == len {
            proof {
                assert(k == suffix.len());
                if keep {
                    assert(line_views(prev) + entry_lines(suffix) =~= line_views(out@));
                } else {
                    assert(line_views(prev) + entry_lines(suffix) =~= line_views(out@));
                }
            }
            done = true;
        } else {
            proof {
                assert(k < suffix.len());
                assert(suffix.skip(k + 1) =~= output@.skip(end + 1));
                if keep {
                    assert(line_views(prev) + (seq![line@] + entry_lines(suffix.skip(k + 1)))
                        =~= line_views(out@) + entry_lines(output@.skip(end + 1)));
                } else {
                    assert(line_views(prev) + entry_lines(suffix.skip(k + 1)) =~= line_views(out@)
                        + entry_lines(output@.skip(end + 1)));
                }
            }
            pos = end + 1;
        }
    }
    out
}

/// Whether the identifier occurs as a token of any of the given entry
/// lines.
pub fn listing_mentions_entries(entries: &Vec<String>, ident: &str) -> (r: bool)
    ensures
        r == listing_mentions(line_views(entries@), ident@),
{
    let mut i: usize = 0;
    while i < entries.len()
        invariant
            i <= entries@.len(),
            forall|k: int|
                0 <= k < i ==> !line_mentions(#[trigger] line_views(entries@)[k], ident@),
        decreases entries@.len() - i,
    {
        if line_mentions_str(entries[i].as_str(), ident) {
            proof {
                assert(line_mentions(line_views(entries@)[i as int], ident@));
            }
            return true;
        }
        i = i + 1;
    }
    false
}

} // verus!
