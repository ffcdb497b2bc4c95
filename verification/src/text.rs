//! Verified text helpers: equality, lexicographic order, trimming and
//! comma-splitting over `&str`, used by the engine and by the thin shells
//! around it.

use vstd::prelude::*;

verus! {

/// Lexicographic order on character sequences, comparing code points,
/// starting at position `from`.
pub open spec fn lex_lt_from(x: Seq<char>, y: Seq<char>, from: int) -> bool
    decreases y.len() - from,
{
    if from >= y.len() {
        false
    } else if from >= x.len() {
        true
    } else if x[from] != y[from] {
        (x[from] as u32) < (y[from] as u32)
    } else {
        lex_lt_from(x, y, from + 1)
    }
}

/// Lexicographic order on character sequences, comparing code points.
pub open spec fn lex_lt(x: Seq<char>, y: Seq<char>) -> bool {
    lex_lt_from(x, y, 0)
}

/// String equality, decided character by character.
pub fn str_eq(a: &str, b: &str) -> (r: bool)
    ensures
        r == (a@ == b@),
{
    let alen = a.unicode_len();
    let blen = b.unicode_len();
    if alen != blen {
        return false;
    }
    let mut i: usize = 0;
    while i < alen
        invariant
            alen == a@.len(),
            blen == b@.len(),
            alen == blen,
            i <= alen,
            forall|j: int| 0 <= j < i ==> a@[j] == b@[j],
        decreases alen - i,
    {
        if a.get_char(i) != b.get_char(i) {
            return false;
        }
        i = i + 1;
    }
    proof {
        assert(a@ =~= b@);
    }
    true
}

/// Strict lexicographic comparison of two strings by code point.
pub fn str_lt(a: &str, b: &str) -> (r: bool)
    ensures
        r == lex_lt(a@, b@),
{
    let alen = a.unicode_len();
    let blen = b.unicode_len();
    let mut i: usize = 0;
    loop
        invariant
            alen == a@.len(),
            blen == b@.len(),
            i <= alen,
            i <= blen,
            lex_lt(a@, b@) == lex_lt_from(a@, b@, i as int),
        decreases alen + blen - 2 * i,
    {
        if i >= blen {
            return false;
        }
        if i >= alen {
            return true;
        }
        let ca = a.get_char(i);
        let cb = b.get_char(i);
        if ca != cb {
            return (ca as u32) < (cb as u32);
        }
        i = i + 1;
    }
}

/// A sequence is never lexicographically below itself.
pub proof fn lemma_lex_irrefl(x: Seq<char>, i: int)
    requires
        0 <= i,
    ensures
        !lex_lt_from(x, x, i),
    decreases x.len() - i,
{
    if i < x.len() {
        lemma_lex_irrefl(x, i + 1);
    }
}

/// Lexicographic order is transitive.
pub proof fn lemma_lex_trans(x: Seq<char>, y: Seq<char>, z: Seq<char>, i: int)
    requires
        0 <= i,
        lex_lt_from(x, y, i),
        lex_lt_from(y, z, i),
    ensures
        lex_lt_from(x, z, i),
    decreases y.len() - i,
{
    if i < y.len() {
        if i < x.len() && i < z.len() && x[i] == y[i] && y[i] == z[i] {
            lemma_lex_trans(x, y, z, i + 1);
        }
    }
}

/// Two sequences are lexicographically comparable or equal from `i` on.
pub proof fn lemma_lex_connex(x: Seq<char>, y: Seq<char>, i: int)
    requires
        0 <= i <= x.len(),
        i <= y.len(),
    ensures
        lex_lt_from(x, y, i) || lex_lt_from(y, x, i) || (x.len() == y.len() && forall|j: int|
            i <= j < x.len() ==> x[j] == y[j]),
    decreases x.len() + y.len() - 2 * i,
{
    if i < x.len() && i < y.len() && x[i] == y[i] {
        lemma_lex_connex(x, y, i + 1);
    } else if i < x.len() && i < y.len() {
        vstd::utf8::char_u32_cast(x[i], x[i] as u32);
        vstd::utf8::char_u32_cast(y[i], y[i] as u32);
        assert((x[i] as u32) != (y[i] as u32));
    }
}

/// Lexicographic order holds in at most one direction.
pub proof fn lemma_lex_asym(x: Seq<char>, y: Seq<char>)
    ensures
        !(lex_lt(x, y) && lex_lt(y, x)),
{
    if lex_lt(x, y) && lex_lt(y, x) {
        lemma_lex_trans(x, y, x, 0);
        lemma_lex_irrefl(x, 0);
    }
}


/// The white-space characters, as Unicode lists them: the set that
/// `str::trim` strips.
pub open spec fn is_space(c: char) -> bool {
    ||| c == ' '
    ||| c == '\u{9}'
    ||| c == '\n'
    ||| c == '\u{B}'
    ||| c == '\u{C}'
    ||| c == '\r'
    ||| c == '\u{85}'
    ||| c == '\u{A0}'
    ||| c == '\u{1680}'
    ||| (0x2000 <= (c as u32) && (c as u32) <= 0x200A)
    ||| c == '\u{2028}'
    ||| c == '\u{2029}'
    ||| c == '\u{202F}'
    ||| c == '\u{205F}'
    ||| c == '\u{3000}'
}

/// Decides [`is_space`].
pub fn is_space_char(c: char) -> (r: bool)
    ensures
        r == is_space(c),
{
    let u = c as u32;
    u == 0x20 || u == 0x9 || u == 0xA || u == 0xB || u == 0xC || u == 0xD || u == 0x85
        || u == 0xA0 || u == 0x1680 || (0x2000 <= u && u <= 0x200A) || u == 0x2028 || u == 0x2029
        || u == 0x202F || u == 0x205F || u == 0x3000
}

/// The position of the first non-space character at or after `i`.
pub open spec fn lead_spaces(s: Seq<char>, i: int) -> int
    decreases s.len() - i,
{
    if i >= s.len() {
        i
    } else if is_space(s[i]) {
        lead_spaces(s, i + 1)
    } else {
        i
    }
}

/// The position one past the last non-space character before `j`.
pub open spec fn tail_end(s: Seq<char>, j: int) -> int
    decreases j,
{
    if j <= 0 {
        0
    } else if is_space(s[j - 1]) {
        tail_end(s, j - 1)
    } else {
        j
    }
}

/// The sequence with leading and trailing white space removed.
pub open spec fn trim_of(s: Seq<char>) -> Seq<char> {
    let a = lead_spaces(s, 0);
    let b = tail_end(s, s.len() as int);
    if a <= b {
        s.subrange(a, b)
    } else {
        Seq::empty()
    }
}

/// Strips leading and trailing white space.
pub fn trim(s: &str) -> (r: String)
    ensures
        r@ == trim_of(s@),
{
    let n = s.unicode_len();
    let mut a: usize = 0;
    let mut front_done = false;
    while a < n && !front_done
        invariant
            n == s@.len(),
            a <= n,
            !front_done ==> lead_spaces(s@, 0) == lead_spaces(s@, a as int),
            front_done ==> lead_spaces(s@, 0) == a,
        decreases 2 * (n - a) + (if front_done {
            0int
        } else {
            1int
        }),
    {
        if is_space_char(s.get_char(a)) {
            a = a + 1;
        } else {
            front_done = true;
        }
    }
    let ghost lead = lead_spaces(s@, 0);
    proof {
        assert(lead == a);
    }
    let mut b: usize = n;
    let mut back_done = false;
    while b > 0 && !back_done
        invariant
            n == s@.len(),
            b <= n,
            !back_done ==> tail_end(s@, n as int) == tail_end(s@, b as int),
            back_done ==> tail_end(s@, n as int) == b,
        decreases 2 * b + (if back_done {
            0int
        } else {
            1int
        }),
    {
        if is_space_char(s.get_char(b - 1)) {
            b = b - 1;
        } else {
            back_done = true;
        }
    }
    proof {
        assert(tail_end(s@, n as int) == b);
    }
    if a < b {
        s.substring_char(a, b).to_owned()
    } else {
        proof {
            assert(trim_of(s@) =~= Seq::<char>::empty());
        }
        String::new()
    }
}

/// A string split at every comma: one piece per gap, in order, commas
/// dropped, empty pieces kept.
pub open spec fn split_commas(s: Seq<char>) -> Seq<Seq<char>>
    decreases s.len(),
{
    if s.len() == 0 {
        seq![Seq::<char>::empty()]
    } else if s[0] == ',' {
        seq![Seq::<char>::empty()] + split_commas(s.drop_first())
    } else {
        let rest = split_commas(s.drop_first());
        seq![seq![s[0]] + rest[0]] + rest.drop_first()
    }
}

/// A split always yields at least one piece.
pub proof fn lemma_split_len(s: Seq<char>)
    ensures
        split_commas(s).len() >= 1,
    decreases s.len(),
{
    if s.len() > 0 {
        lemma_split_len(s.drop_first());
    }
}

/// A string without commas is one piece.
pub proof fn lemma_split_no_comma(s: Seq<char>)
    requires
        forall|j: int| 0 <= j < s.len() ==> s[j] != ',',
    ensures
        split_commas(s) == seq![s],
    decreases s.len(),
{
    if s.len() == 0 {
        assert(seq![Seq::<char>::empty()] =~~= seq![s]);
    } else {
        assert forall|j: int| 0 <= j < s.drop_first().len() implies s.drop_first()[j] != ',' by {
            assert(s.drop_first()[j] == s[j + 1]);
        }
        lemma_split_no_comma(s.drop_first());
        let rest = split_commas(s.drop_first());
        assert(rest[0] == s.drop_first());
        assert(seq![s[0]] + rest[0] =~= s);
        assert(rest.drop_first() =~= Seq::<Seq<char>>::empty());
        assert(seq![seq![s[0]] + rest[0]] + rest.drop_first() =~= seq![s]);
    }
}

/// Splitting at the first comma: the piece before it, then the split of
/// what follows it.
pub proof fn lemma_split_first_comma(s: Seq<char>, i: int)
    requires
        0 <= i < s.len(),
        s[i] == ',',
        forall|j: int| 0 <= j < i ==> s[j] != ',',
    ensures
        split_commas(s) == seq![s.subrange(0, i)] + split_commas(s.subrange(i + 1, s.len() as int)),
    decreases i,
{
    if i == 0 {
        assert(s.subrange(0, 0) =~= Seq::<char>::empty());
        assert(s.drop_first() =~= s.subrange(1, s.len() as int));
        assert(split_commas(s) =~= seq![s.subrange(0, 0)] + split_commas(
            s.subrange(1, s.len() as int),
        ));
    } else {
        let t = s.drop_first();
        assert(t[i - 1] == s[i]);
        assert forall|j: int| 0 <= j < i - 1 implies t[j] != ',' by {
            assert(t[j] == s[j + 1]);
        }
        lemma_split_first_comma(t, i - 1);
        lemma_split_len(t.subrange(i, t.len() as int));
        let rest = split_commas(t);
        assert(rest == seq![t.subrange(0, i - 1)] + split_commas(t.subrange(i, t.len() as int)));
        assert(rest[0] == t.subrange(0, i - 1));
        assert(seq![s[0]] + rest[0] =~= s.subrange(0, i));
        assert(t.subrange(i, t.len() as int) =~= s.subrange(i + 1, s.len() as int));
        assert(rest.drop_first() =~= split_commas(s.subrange(i + 1, s.len() as int)));
        assert(seq![seq![s[0]] + rest[0]] + rest.drop_first() =~= seq![s.subrange(0, i)]
            + split_commas(s.subrange(i + 1, s.len() as int)));
    }
}

/// Splits a comma-separated list and strips white space around each
/// entry.
pub fn parse_recipients(recipients: &str) -> (r: Vec<String>)
    ensures
        r@.len() == split_commas(recipients@).len(),
        forall|i: int|
            0 <= i < r@.len() ==> (#[trigger] r@[i])@ == trim_of(split_commas(recipients@)[i]),
    decreases recipients@.len(),
{
    let n = recipients.unicode_len();
    let mut comma: Option<usize> = None;
    let mut i: usize = 0;
    while i < n
        invariant
            n == recipients@.len(),
            i <= n,
            comma matches Some(c) ==> c < n && recipients@[c as int] == ',' && (forall|j: int|
                0 <= j < c ==> recipients@[j] != ','),
            comma is None ==> forall|j: int| 0 <= j < i ==> recipients@[j] != ',',
        decreases n - i,
    {
        if comma.is_none() && recipients.get_char(i) == ',' {
            comma = Some(i);
        }
        if comma.is_none() {
            i = i + 1;
        } else {
            i = n;
        }
    }
    match comma {
        Some(c) => {
            proof {
                lemma_split_first_comma(recipients@, c as int);
                lemma_split_len(recipients@.subrange(c + 1, recipients@.len() as int));
            }
            let head = recipients.substring_char(0, c);
            let tail = recipients.substring_char(c + 1, n);
            let mut rest = parse_recipients(tail);
            let ghost rest0 = rest@;
            let mut out: Vec<String> = Vec::new();
            out.push(trim(head));
            out.append(&mut rest);
            proof {
                assert forall|k: int| 0 <= k < out@.len() implies (#[trigger] out@[k])@ == trim_of(
                    split_commas(recipients@)[k],
                ) by {
                    if k > 0 {
                        assert(out@[k] == rest0[k - 1]);
                        assert(split_commas(recipients@)[k] == split_commas(tail@)[k - 1]);
                    }
                }
            }
            out
        },
        None => {
            proof {
                lemma_split_no_comma(recipients@);
            }
            let mut out: Vec<String> = Vec::new();
            out.push(trim(recipients));
            out
        },
    }
}

/// Whether a line of input affirms a confirmation prompt: exactly a
/// case-insensitive "y" once surrounding white space is stripped.
pub fn is_affirmative(line: &str) -> (r: bool)
    ensures
        r == (trim_of(line@) == "y"@ || trim_of(line@) == "Y"@),
{
    let t = trim(line);
    str_eq(t.as_str(), "y") || str_eq(t.as_str(), "Y")
}


/// Extracts the student id from an institutional email address: the
/// part before the institutional domain, once surrounding white space
/// is stripped; an address under any other domain yields nothing.
pub fn id_from_email(email: &str) -> (r: Option<String>)
    ensures
        r matches Some(p) ==> trim_of(email@).len() >= "@andrew.cmu.edu"@.len() && trim_of(
            email@,
        ).subrange(
            trim_of(email@).len() - "@andrew.cmu.edu"@.len(),
            trim_of(email@).len() as int,
        ) == "@andrew.cmu.edu"@ && p@ == trim_of(email@).subrange(
            0,
            trim_of(email@).len() - "@andrew.cmu.edu"@.len(),
        ),
        r is None ==> !(trim_of(email@).len() >= "@andrew.cmu.edu"@.len() && trim_of(
            email@,
        ).subrange(
            trim_of(email@).len() - "@andrew.cmu.edu"@.len(),
            trim_of(email@).len() as int,
        ) == "@andrew.cmu.edu"@),
{
    let t = trim(email);
    let n = t.as_str().unicode_len();
    let suffix = "@andrew.cmu.edu";
    let sl = suffix.unicode_len();
    if n < sl {
        return None;
    }
    let tail = t.as_str().substring_char(n - sl, n);
    if str_eq(tail, suffix) {
        Some(t.as_str().substring_char(0, n - sl).to_owned())
    } else {
        None
    }
}

} // verus!
