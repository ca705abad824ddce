//! Character-level codec for the durable snapshot. A snapshot is a stream
//! of atoms — numbers and text — each prefixed by a decimal length or
//! value, so that decoding needs no escaping and consumes text verbatim.
//!
//! Format: the file opens with the atom count written as a number atom;
//! a number atom is its decimal digits followed by `:`; a text atom is the
//! text length in decimal, `;`, then the text itself.
use vstd::prelude::*;
use vstd::string::StringExecFns;
use vstd::string::StrSliceExecFns;
use crate::digits::{dec_digits, digits_value, is_digit, lemma_dec_digits_are_digits,
    lemma_dec_digits_value};

verus! {

/// One element of the snapshot stream: an unsigned number or a run of text.
#[derive(Debug)]
pub enum Atom {
    Num(u64),
    Txt(String),
}

pub enum AtomView {
    Num(u64),
    Txt(Seq<char>),
}

impl View for Atom {
    type V = AtomView;

    open spec fn view(&self) -> AtomView {
        match self {
            Atom::Num(n) => AtomView::Num(*n),
            Atom::Txt(t) => AtomView::Txt(t@),
        }
    }
}

/// A text atom must be able to carry its length in a number.
pub open spec fn wf_atom(a: AtomView) -> bool {
    match a {
        AtomView::Num(_) => true,
        AtomView::Txt(t) => t.len() <= u64::MAX,
    }
}

pub open spec fn wf_atoms(atoms: Seq<AtomView>) -> bool {
    forall|i: int| 0 <= i < atoms.len() ==> wf_atom(#[trigger] atoms[i])
}

// ---------- Encoding ----------

pub open spec fn spec_enc_atom(a: AtomView) -> Seq<char> {
    match a {
        AtomView::Num(n) => dec_digits(n as nat) + seq![':'],
        AtomView::Txt(t) => dec_digits(t.len()) + seq![';'] + t,
    }
}

pub open spec fn spec_enc_atoms(atoms: Seq<AtomView>) -> Seq<char>
    decreases atoms.len(),
{
    if atoms.len() == 0 {
        Seq::empty()
    } else {
        spec_enc_atom(atoms[0]) + spec_enc_atoms(atoms.drop_first())
    }
}

/// A whole snapshot: the atom count as a number atom, then the atoms.
pub open spec fn spec_enc_file(atoms: Seq<AtomView>) -> Seq<char> {
    spec_enc_atom(AtomView::Num(atoms.len() as u64)) + spec_enc_atoms(atoms)
}

// ---------- Parsing ----------

/// Length of the run of digit characters at the front of `s`.
pub open spec fn digit_run_len(s: Seq<char>) -> nat
    decreases s.len(),
{
    if s.len() > 0 && is_digit(s[0]) {
        1 + digit_run_len(s.drop_first())
    } else {
        0
    }
}

pub proof fn lemma_digit_run_len_spec(s: Seq<char>)
    ensures
        digit_run_len(s) <= s.len(),
        forall|i: int| 0 <= i < digit_run_len(s) ==> is_digit(#[trigger] s[i]),
        digit_run_len(s) < s.len() ==> !is_digit(s[digit_run_len(s) as int]),
    decreases s.len(),
{
    if s.len() > 0 && is_digit(s[0]) {
        lemma_digit_run_len_spec(s.drop_first());
        assert forall|i: int| 0 <= i < digit_run_len(s) implies is_digit(#[trigger] s[i]) by {
            if i > 0 {
                assert(s[i] == s.drop_first()[i - 1]);
            }
        }
        if digit_run_len(s) < s.len() {
            assert(s[digit_run_len(s) as int] == s.drop_first()[digit_run_len(s.drop_first()) as int]);
        }
    }
}

/// The digit run of an all-digit sequence followed by anything that does
/// not begin with a digit is exactly the all-digit part.
pub proof fn lemma_digit_run_of_concat(ds: Seq<char>, rest: Seq<char>)
    requires
        forall|i: int| 0 <= i < ds.len() ==> is_digit(#[trigger] ds[i]),
        rest.len() == 0 || !is_digit(rest[0]),
    ensures
        digit_run_len(ds + rest) == ds.len(),
    decreases ds.len(),
{
    if ds.len() == 0 {
        assert(ds + rest =~= rest);
    } else {
        assert((ds + rest)[0] == ds[0]);
        assert((ds + rest).drop_first() =~= ds.drop_first() + rest);
        lemma_digit_run_of_concat(ds.drop_first(), rest);
    }
}

/// Parses one atom from the front of `s`: the digit run gives the number
/// or the text length, the character after it tells which; malformed or
/// truncated input parses to `None`.
pub open spec fn spec_parse_atom(s: Seq<char>) -> Option<(AtomView, Seq<char>)> {
    let k = digit_run_len(s) as int;
    if k == 0 {
        None
    } else {
        let v = digits_value(s.take(k));
        if v > u64::MAX {
            None
        } else if k >= s.len() {
            None
        } else if s[k] == ':' {
            Some((AtomView::Num(v as u64), s.skip(k + 1)))
        } else if s[k] == ';' {
            let rest = s.skip(k + 1);
            if rest.len() < v {
                None
            } else {
                Some((AtomView::Txt(rest.take(v)), rest.skip(v)))
            }
        } else {
            None
        }
    }
}

/// Parses exactly `n` atoms, returning them with the unconsumed tail.
pub open spec fn spec_parse_atoms_n(s: Seq<char>, n: nat) -> Option<(Seq<AtomView>, Seq<char>)>
    decreases n,
{
    if n == 0 {
        Some((Seq::empty(), s))
    } else {
        match spec_parse_atom(s) {
            None => None,
            Some((a, rest)) => match spec_parse_atoms_n(rest, (n - 1) as nat) {
                None => None,
                Some((tail, rest2)) => Some((seq![a] + tail, rest2)),
            },
        }
    }
}

/// Parses a whole snapshot: the count, then that many atoms, with nothing
/// left over.
pub open spec fn spec_parse_file(s: Seq<char>) -> Option<Seq<AtomView>> {
    match spec_parse_atom(s) {
        Some((AtomView::Num(m), rest)) => match spec_parse_atoms_n(rest, m as nat) {
            Some((atoms, rest2)) => if rest2.len() == 0 {
                Some(atoms)
            } else {
                None
            },
            None => None,
        },
        _ => None,
    }
}

// ---------- Round trip ----------

/// Parsing an encoded atom gives the atom back and consumes exactly its
/// encoding, whatever follows it.
pub proof fn lemma_parse_enc_atom(a: AtomView, rest: Seq<char>)
    requires
        wf_atom(a),
    ensures
        spec_parse_atom(spec_enc_atom(a) + rest) == Some((a, rest)),
{
    match a {
        AtomView::Num(n) => {
            let ds = dec_digits(n as nat);
            let s = spec_enc_atom(a) + rest;
            lemma_dec_digits_are_digits(n as nat);
            assert(s =~= ds + (seq![':'] + rest));
            assert(!is_digit(':'));
            lemma_digit_run_of_concat(ds, seq![':'] + rest);
            let k = digit_run_len(s) as int;
            assert(k == ds.len());
            assert(s.take(k) =~= ds);
            lemma_dec_digits_value(n as nat);
            assert(s[k] == (seq![':'] + rest)[0]);
            assert(s.skip(k + 1) =~= rest);
        },
        AtomView::Txt(t) => {
            let ds = dec_digits(t.len());
            let s = spec_enc_atom(a) + rest;
            lemma_dec_digits_are_digits(t.len());
            assert(s =~= ds + (seq![';'] + t + rest));
            assert(!is_digit(';'));
            lemma_digit_run_of_concat(ds, seq![';'] + t + rest);
            let k = digit_run_len(s) as int;
            assert(k == ds.len());
            assert(s.take(k) =~= ds);
            lemma_dec_digits_value(t.len());
            assert(s[k] == (seq![';'] + t + rest)[0]);
            let tail = s.skip(k + 1);
            assert(tail =~= t + rest);
            assert(tail.take(t.len() as int) =~= t);
            assert(tail.skip(t.len() as int) =~= rest);
        },
    }
}

/// Parsing the encoding of a sequence of atoms gives the sequence back.
pub proof fn lemma_parse_enc_atoms(atoms: Seq<AtomView>, rest: Seq<char>)
    requires
        wf_atoms(atoms),
    ensures
        spec_parse_atoms_n(spec_enc_atoms(atoms) + rest, atoms.len()) == Some((atoms, rest)),
    decreases atoms.len(),
{
    if atoms.len() == 0 {
        assert(spec_enc_atoms(atoms) + rest =~= rest);
        assert(Seq::<AtomView>::empty() =~= atoms);
    } else {
        let s = spec_enc_atoms(atoms) + rest;
        assert(s =~= spec_enc_atom(atoms[0]) + (spec_enc_atoms(atoms.drop_first()) + rest));
        lemma_parse_enc_atom(atoms[0], spec_enc_atoms(atoms.drop_first()) + rest);
        assert(wf_atoms(atoms.drop_first())) by {
            assert(forall|i: int|
                0 <= i < atoms.drop_first().len() ==> #[trigger] atoms.drop_first()[i] == atoms[i
                    + 1]);
        }
        lemma_parse_enc_atoms(atoms.drop_first(), rest);
        assert(seq![atoms[0]] + atoms.drop_first() =~= atoms);
    }
}

/// Concatenation of atom streams encodes to the concatenation of their
/// encodings.
pub proof fn lemma_enc_atoms_concat(s1: Seq<AtomView>, s2: Seq<AtomView>)
    ensures
        spec_enc_atoms(s1 + s2) == spec_enc_atoms(s1) + spec_enc_atoms(s2),
    decreases s1.len(),
{
    if s1.len() == 0 {
        assert(s1 + s2 =~= s2);
        assert(spec_enc_atoms(s1) + spec_enc_atoms(s2) =~= spec_enc_atoms(s2));
    } else {
        assert((s1 + s2)[0] == s1[0]);
        assert((s1 + s2).drop_first() =~= s1.drop_first() + s2);
        lemma_enc_atoms_concat(s1.drop_first(), s2);
        assert(spec_enc_atom(s1[0]) + (spec_enc_atoms(s1.drop_first()) + spec_enc_atoms(s2))
            =~= (spec_enc_atom(s1[0]) + spec_enc_atoms(s1.drop_first())) + spec_enc_atoms(s2));
    }
}

/// A whole encoded snapshot parses back to exactly its atoms.
pub proof fn lemma_parse_enc_file(atoms: Seq<AtomView>)
    requires
        wf_atoms(atoms),
        atoms.len() <= u64::MAX,
    ensures
        spec_parse_file(spec_enc_file(atoms)) == Some(atoms),
{
    let header = AtomView::Num(atoms.len() as u64);
    lemma_parse_enc_atom(header, spec_enc_atoms(atoms));
    assert(spec_enc_file(atoms) == spec_enc_atom(header) + spec_enc_atoms(atoms));
    lemma_parse_enc_atoms(atoms, Seq::empty());
    assert(spec_enc_atoms(atoms) + Seq::<char>::empty() =~= spec_enc_atoms(atoms));
}

// ---------- Executable encoding ----------

/// The views of a sequence of executable atoms.
pub open spec fn atom_views(s: Seq<Atom>) -> Seq<AtomView> {
    s.map_values(|a: Atom| a@)
}

/// Appends the encoding of one atom to `out`.
fn append_atom(out: &mut String, a: &Atom)
    ensures
        final(out)@ == old(out)@ + spec_enc_atom(a@),
{
    proof {
        reveal_strlit(":");
        reveal_strlit(";");
    }
    match a {
        Atom::Num(n) => {
            crate::digits::append_u64(out, *n);
            out.append(":");
            assert(out@ =~= old(out)@ + spec_enc_atom(a@));
        },
        Atom::Txt(t) => {
            let len = t.as_str().unicode_len();
            crate::digits::append_u64(out, len as u64);
            out.append(";");
            out.append(t.as_str());
            assert(out@ =~= old(out)@ + spec_enc_atom(a@));
        },
    }
}

/// Encodes a whole snapshot: the atom count, then every atom in order.
pub fn encode_file(atoms: &Vec<Atom>) -> (r: String)
    ensures
        r@ == spec_enc_file(atom_views(atoms@)),
{
    proof {
        reveal_strlit(":");
    }
    let ghost views = atom_views(atoms@);
    let mut out = String::new();
    crate::digits::append_u64(&mut out, atoms.len() as u64);
    out.append(":");
    assert(out@ =~= spec_enc_atom(AtomView::Num(atoms.len() as u64)));
    let ghost header = out@;
    let mut i: usize = 0;
    while i < atoms.len()
        invariant
            i <= atoms.len(),
            views == atom_views(atoms@),
            out@ == header + spec_enc_atoms(views.take(i as int)),
        decreases atoms.len() - i,
    {
        append_atom(&mut out, &atoms[i]);
        proof {
            assert(views.take(i + 1) =~= views.take(i as int).push(views[i as int]));
            assert(views.take(i + 1) =~= views.take(i as int) + seq![views[i as int]]);
            lemma_enc_atoms_concat(views.take(i as int), seq![views[i as int]]);
            assert(seq![views[i as int]].drop_first() =~= Seq::<AtomView>::empty());
            assert(spec_enc_atoms(Seq::<AtomView>::empty()) =~= Seq::<char>::empty());
            assert(seq![views[i as int]][0] == views[i as int]);
            assert(spec_enc_atoms(seq![views[i as int]]) =~= spec_enc_atom(views[i as int]));
            assert(out@ =~= header + spec_enc_atoms(views.take(i + 1)));
        }
        i = i + 1;
    }
    proof {
        assert(views.take(atoms@.len() as int) =~= views);
        assert(views.len() as u64 == atoms.len() as u64);
    }
    out
}

// ---------- Executable parsing ----------

/// Executable digit test.
fn char_is_digit(c: char) -> (r: bool)
    ensures
        r == is_digit(c),
{
    let u = c as u32;
    48 <= u && u <= 57
}

/// Scans the digit run starting at `pos`: returns the position just past
/// the run and its value, or `None` in place of a value that does not fit
/// in a `u64`.
fn scan_number(s: &str, pos: usize) -> (r: (usize, Option<u64>))
    requires
        pos <= s@.len(),
    ensures
        ({
            let ss = s@.skip(pos as int);
            let k = digit_run_len(ss) as int;
            &&& r.0 == pos + k
            &&& match r.1 {
                Some(v) => digits_value(ss.take(k)) == v,
                None => digits_value(ss.take(k)) > u64::MAX,
            }
        }),
{
    let ghost ss = s@.skip(pos as int);
    let ghost k = digit_run_len(ss) as int;
    proof {
        lemma_digit_run_len_spec(ss);
    }
    let len = s.unicode_len();
    let mut i = pos;
    let mut acc: u64 = 0;
    let mut overflow = false;
    loop
        invariant
            pos <= i <= pos + k,
            pos + k <= s@.len() == len,
            ss == s@.skip(pos as int),
            k == digit_run_len(ss) as int,
            digit_run_len(ss) <= ss.len(),
            forall|j: int| 0 <= j < k ==> is_digit(#[trigger] ss[j]),
            k < ss.len() ==> !is_digit(ss[k]),
            !overflow ==> digits_value(ss.take(i - pos)) == acc,
            overflow ==> digits_value(ss.take(i - pos)) > u64::MAX,
        ensures
            i == pos + k,
            !overflow ==> digits_value(ss.take(i - pos)) == acc,
            overflow ==> digits_value(ss.take(i - pos)) > u64::MAX,
        decreases pos + k - i,
    {
        if i == len {
            assert(i - pos == k);
            break ;
        }
        let c = s.get_char(i);
        assert(c == ss[i - pos]);
        if !char_is_digit(c) {
            assert(i - pos == k) by {
                if i - pos < k {
                    assert(is_digit(ss[i - pos]));
                }
            }
            break ;
        }
        assert(i - pos < k) by {
            if i - pos == k {
                assert(k < ss.len());
                assert(!is_digit(ss[k]));
            }
        }
        let d = (c as u32 - 48) as u64;
        proof {
            assert(ss.take(i - pos + 1) =~= ss.take(i - pos).push(ss[i - pos]));
            crate::digits::lemma_digits_value_snoc(ss.take(i - pos), ss[i - pos]);
            assert(crate::digits::digit_val(c) == d);
        }
        if overflow {
            proof {
                assert(digits_value(ss.take(i - pos + 1)) > u64::MAX);
            }
        } else if acc > (u64::MAX - d) / 10 {
            overflow = true;
            proof {
                vstd::arithmetic::div_mod::lemma_fundamental_div_mod((u64::MAX - d) as int, 10);
                assert(acc * 10 + d > u64::MAX);
            }
        } else {
            proof {
                vstd::arithmetic::div_mod::lemma_fundamental_div_mod((u64::MAX - d) as int, 10);
                assert(acc * 10 <= u64::MAX - d) by {
                    assert(acc <= (u64::MAX - d) / 10);
                };
            }
            acc = acc * 10 + d;
        }
        i = i + 1;
    }
    assert(i == pos + k);
    if overflow {
        (i, None)
    } else {
        (i, Some(acc))
    }
}

/// Parses one atom at `pos`; on success returns it with the position just
/// past what was consumed.
pub fn parse_atom_at(s: &str, pos: usize) -> (r: Option<(Atom, usize)>)
    requires
        pos <= s@.len(),
    ensures
        match r {
            None => spec_parse_atom(s@.skip(pos as int)) is None,
            Some((a, p2)) => pos < p2 <= s@.len() && spec_parse_atom(s@.skip(pos as int))
                == Some((a@, s@.skip(p2 as int))),
        },
{
    let ghost ss = s@.skip(pos as int);
    let ghost k = digit_run_len(ss) as int;
    proof {
        lemma_digit_run_len_spec(ss);
    }
    let len = s.unicode_len();
    let (end, vopt) = scan_number(s, pos);
    if end == pos {
        return None;
    }
    let v = match vopt {
        None => {
            return None;
        },
        Some(v) => v,
    };
    if end >= len {
        return None;
    }
    let c = s.get_char(end);
    assert(c == ss[k]);
    if c == ':' {
        proof {
            assert(ss.skip(k + 1) =~= s@.skip(end + 1));
        }
        Some((Atom::Num(v), end + 1))
    } else if c == ';' {
        let remaining = len - (end + 1);
        let ghost rest = ss.skip(k + 1);
        proof {
            assert(rest =~= s@.skip(end + 1));
            assert(rest.len() == remaining);
        }
        if v > remaining as u64 {
            None
        } else {
            let tlen = v as usize;
            let t = s.substring_char(end + 1, end + 1 + tlen);
            let ts = String::from_str(t);
            proof {
                assert(rest.take(v as int) =~= s@.subrange(end + 1, end + 1 + tlen));
                assert(rest.skip(v as int) =~= s@.skip(end + 1 + tlen));
            }
            Some((Atom::Txt(ts), end + 1 + tlen))
        }
    } else {
        None
    }
}

/// Composes already-parsed atoms with the result of parsing the rest.
pub open spec fn compose_atoms(
    pre: Seq<AtomView>,
    r: Option<(Seq<AtomView>, Seq<char>)>,
) -> Option<(Seq<AtomView>, Seq<char>)> {
    match r {
        None => None,
        Some((tail, rest)) => Some((pre + tail, rest)),
    }
}

/// Parses a whole snapshot string into its atoms; `None` exactly when the
/// input is not a well-formed snapshot.
pub fn parse_file(s: &str) -> (r: Option<Vec<Atom>>)
    ensures
        match r {
            None => spec_parse_file(s@) is None,
            Some(atoms) => spec_parse_file(s@) == Some(atom_views(atoms@)),
        },
{
    proof {
        assert(s@.skip(0) =~= s@);
    }
    let len = s.unicode_len();
    let (m, p1) = match parse_atom_at(s, 0) {
        None => {
            return None;
        },
        Some((Atom::Txt(_), _)) => {
            return None;
        },
        Some((Atom::Num(m), p1)) => (m, p1),
    };
    let mut atoms: Vec<Atom> = Vec::new();
    let mut pos = p1;
    let mut j: u64 = 0;
    while j < m
        invariant
            j <= m,
            pos <= s@.len(),
            s@.len() == len,
            atoms@.len() == j,
            spec_parse_atom(s@) == Some((AtomView::Num(m), s@.skip(p1 as int))),
            compose_atoms(
                atom_views(atoms@),
                spec_parse_atoms_n(s@.skip(pos as int), (m - j) as nat),
            ) == spec_parse_atoms_n(s@.skip(p1 as int), m as nat),
        decreases m - j,
    {
        match parse_atom_at(s, pos) {
            None => {
                proof {
                    assert(spec_parse_atoms_n(s@.skip(pos as int), (m - j) as nat) is None);
                }
                return None;
            },
            Some((a, p2)) => {
                proof {
                    let pre = atom_views(atoms@);
                    let cur = spec_parse_atoms_n(s@.skip(pos as int), (m - j) as nat);
                    let nxt = spec_parse_atoms_n(s@.skip(p2 as int), (m - (j + 1)) as nat);
                    assert(atom_views(atoms@.push(a)) =~= pre.push(a@));
                    match nxt {
                        None => {
                            assert(cur is None);
                        },
                        Some((tail, rest2)) => {
                            assert(cur == Some((seq![a@] + tail, rest2)));
                            assert(pre + (seq![a@] + tail) =~= pre.push(a@) + tail);
                        },
                    }
                }
                atoms.push(a);
                pos = p2;
                j = j + 1;
            },
        }
    }
    if pos < len {
        proof {
            assert(spec_parse_atoms_n(s@.skip(pos as int), 0) == Some(
                (Seq::<AtomView>::empty(), s@.skip(pos as int)),
            ));
            assert(atom_views(atoms@) + Seq::<AtomView>::empty() =~= atom_views(atoms@));
            assert(s@.skip(pos as int).len() > 0);
        }
        return None;
    }
    proof {
        assert(spec_parse_atoms_n(s@.skip(pos as int), 0) == Some(
            (Seq::<AtomView>::empty(), s@.skip(pos as int)),
        ));
        assert(atom_views(atoms@) + Seq::<AtomView>::empty() =~= atom_views(atoms@));
        assert(s@.skip(pos as int).len() == 0);
    }
    Some(atoms)
}

} // verus!
