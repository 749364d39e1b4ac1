//! The version value: an ordered sequence of non-negative numeric components,
//! parsed out of loosely formatted strings such as file names or tag names.

use crate::order::{seq_cmp, seq_lt};
use vstd::prelude::*;

verus! {

/// Why a string failed to parse as a version.
#[derive(Clone, Copy, Debug, PartialEq, Eq, Structural)]
pub enum ParseError {
    /// The string holds no ASCII digit at all.
    NoDigitFound,
    /// Fewer than two numeric components could be decoded.
    InsufficientComponents,
}

pub open spec fn is_digit(c: char) -> bool {
    48 <= c as u32 <= 57
}

pub open spec fn digit_val(c: char) -> int {
    c as u32 - 48
}

/// The token separators: `.` always, `-` only where `dash` is set.
pub open spec fn is_delim(c: char, dash: bool) -> bool {
    c == '.' || (dash && c == '-')
}

/// Position of the first delimiter, or the length when there is none.
pub open spec fn first_delim(s: Seq<char>, dash: bool) -> int
    decreases s.len(),
{
    if s.len() == 0 {
        0
    } else if is_delim(s[0], dash) {
        0
    } else {
        1 + first_delim(s.skip(1), dash)
    }
}

pub proof fn lemma_first_delim(s: Seq<char>, dash: bool)
    ensures
        0 <= first_delim(s, dash) <= s.len(),
        forall|i: int| 0 <= i < first_delim(s, dash) ==> !is_delim(s[i], dash),
        first_delim(s, dash) < s.len() ==> is_delim(s[first_delim(s, dash)], dash),
    decreases s.len(),
{
    if s.len() > 0 && !is_delim(s[0], dash) {
        lemma_first_delim(s.skip(1), dash);
        assert(forall|i: int| 1 <= i < first_delim(s, dash) ==> s[i] == s.skip(1)[i - 1]);
    }
}

/// The first delimiter is characterized by its neighbourhood.
pub proof fn lemma_first_delim_at(s: Seq<char>, dash: bool, k: int)
    requires
        0 <= k <= s.len(),
        forall|i: int| 0 <= i < k ==> !is_delim(s[i], dash),
        k < s.len() ==> is_delim(s[k], dash),
    ensures
        first_delim(s, dash) == k,
    decreases s.len(),
{
    if s.len() > 0 && k > 0 {
        assert(forall|i: int| 0 <= i < k - 1 ==> s.skip(1)[i] == s[i + 1]);
        lemma_first_delim_at(s.skip(1), dash, k - 1);
    }
}

/// Position of the first ASCII digit, or the length when there is none.
pub open spec fn first_digit(s: Seq<char>) -> int
    decreases s.len(),
{
    if s.len() == 0 {
        0
    } else if is_digit(s[0]) {
        0
    } else {
        1 + first_digit(s.skip(1))
    }
}

pub open spec fn has_digit(s: Seq<char>) -> bool {
    exists|i: int| 0 <= i < s.len() && is_digit(s[i])
}

pub proof fn lemma_first_digit(s: Seq<char>)
    ensures
        0 <= first_digit(s) <= s.len(),
        forall|i: int| 0 <= i < first_digit(s) ==> !is_digit(s[i]),
        first_digit(s) < s.len() ==> is_digit(s[first_digit(s)]),
        has_digit(s) <==> first_digit(s) < s.len(),
    decreases s.len(),
{
    if s.len() > 0 && !is_digit(s[0]) {
        lemma_first_digit(s.skip(1));
        assert(forall|i: int| 1 <= i < first_digit(s) ==> s[i] == s.skip(1)[i - 1]);
        if has_digit(s) {
            let w = choose|i: int| 0 <= i < s.len() && is_digit(s[i]);
            assert(is_digit(s.skip(1)[w - 1]));
        }
        if has_digit(s.skip(1)) {
            let w = choose|i: int| 0 <= i < s.skip(1).len() && is_digit(s.skip(1)[i]);
            assert(is_digit(s[w + 1]));
        }
    }
}

pub proof fn lemma_first_digit_at(s: Seq<char>, k: int)
    requires
        0 <= k <= s.len(),
        forall|i: int| 0 <= i < k ==> !is_digit(s[i]),
        k < s.len() ==> is_digit(s[k]),
    ensures
        first_digit(s) == k,
    decreases s.len(),
{
    if s.len() > 0 && k > 0 {
        assert(forall|i: int| 0 <= i < k - 1 ==> s.skip(1)[i] == s[i + 1]);
        lemma_first_digit_at(s.skip(1), k - 1);
    }
}

/// The numeric value of a run of digits, most significant first.
pub open spec fn token_val(t: Seq<char>) -> int
    decreases t.len(),
{
    if t.len() == 0 {
        0
    } else {
        10 * token_val(t.drop_last()) + digit_val(t.last())
    }
}

pub open spec fn all_digits(t: Seq<char>) -> bool {
    forall|i: int| 0 <= i < t.len() ==> is_digit(t[i])
}

/// A token decodes as a component exactly when it is a non-empty run of
/// digits whose value fits the component type.
pub open spec fn valid_token(t: Seq<char>) -> bool {
    t.len() > 0 && all_digits(t) && token_val(t) <= i32::MAX as int
}

pub proof fn lemma_token_val_nonneg(t: Seq<char>)
    requires
        all_digits(t),
    ensures
        token_val(t) >= 0,
    decreases t.len(),
{
    if t.len() > 0 {
        assert(forall|i: int| 0 <= i < t.len() - 1 ==> t.drop_last()[i] == t[i]);
        lemma_token_val_nonneg(t.drop_last());
    }
}

/// A prefix of a digit run never exceeds the whole run's value.
pub proof fn lemma_token_val_prefix(t: Seq<char>, m: int)
    requires
        all_digits(t),
        0 <= m <= t.len(),
    ensures
        token_val(t.take(m)) <= token_val(t),
    decreases t.len(),
{
    assert(forall|i: int| 0 <= i < t.len() - 1 ==> t.drop_last()[i] == t[i]);
    if m == t.len() {
        assert(t.take(m) =~= t);
    } else {
        assert(t.take(m) =~= t.drop_last().take(m));
        lemma_token_val_prefix(t.drop_last(), m);
        lemma_token_val_nonneg(t.drop_last());
    }
}

#[via_fn]
proof fn decode_decreases(s: Seq<char>, dash: bool) {
    lemma_first_delim(s, dash);
}

/// Splits on the delimiters and decodes tokens left to right, stopping at
/// the first token that is not a plain number: a prefix decode.
pub open spec fn decode(s: Seq<char>, dash: bool) -> Seq<int>
    decreases s.len(),
        via decode_decreases
{
    let k = first_delim(s, dash);
    let tok = s.take(k);
    if !valid_token(tok) {
        Seq::empty()
    } else if k == s.len() {
        seq![token_val(tok)]
    } else {
        seq![token_val(tok)] + decode(s.skip(k + 1), dash)
    }
}

/// Every decoded component is a value a component can hold.
pub proof fn lemma_decode_in_range(s: Seq<char>, dash: bool)
    ensures
        forall|i: int|
            0 <= i < decode(s, dash).len() ==> 0 <= #[trigger] decode(s, dash)[i]
                <= i32::MAX as int,
    decreases s.len(),
{
    lemma_first_delim(s, dash);
    let k = first_delim(s, dash);
    let tok = s.take(k);
    let d = decode(s, dash);
    if valid_token(tok) {
        lemma_token_val_nonneg(tok);
        if k != s.len() {
            let r = decode(s.skip(k + 1), dash);
            lemma_decode_in_range(s.skip(k + 1), dash);
            assert(d == seq![token_val(tok)] + r);
            assert forall|i: int| 0 <= i < d.len() implies 0 <= #[trigger] d[i]
                <= i32::MAX as int by {
                if i > 0 {
                    assert(d[i] == r[i - 1]);
                }
            }
        }
    }
}

/// What parsing a whole string yields: locate the first digit, prefix-decode
/// what follows, demand at least two components.
pub open spec fn spec_parse(s: Seq<char>) -> Result<Seq<int>, ParseError> {
    if !has_digit(s) {
        Err(ParseError::NoDigitFound)
    } else if decode(s.skip(first_digit(s)), true).len() < 2 {
        Err(ParseError::InsufficientComponents)
    } else {
        Ok(decode(s.skip(first_digit(s)), true))
    }
}

/// Strings with no digit, or whose digit-stripped split decode yields fewer
/// than two components, never parse.
pub proof fn lemma_parse_rejects(s: Seq<char>)
    ensures
        !has_digit(s) ==> spec_parse(s) == Err::<Seq<int>, ParseError>(ParseError::NoDigitFound),
        has_digit(s) && decode(s.skip(first_digit(s)), true).len() < 2 ==> spec_parse(s)
            == Err::<Seq<int>, ParseError>(ParseError::InsufficientComponents),
        spec_parse(s) is Ok ==> spec_parse(s)->Ok_0.len() >= 2,
{
}

/// An ordered sequence of non-negative numeric components.
#[derive(Debug)]
pub struct Version {
    v: Vec<i32>,
}

impl View for Version {
    type V = Seq<int>;

    closed spec fn view(&self) -> Seq<int> {
        self.v@.map(|_i, x: i32| x as int)
    }
}

impl Version {
    #[verifier::type_invariant]
    closed spec fn wf(&self) -> bool {
        forall|i: int| 0 <= i < self.v@.len() ==> self.v@[i] >= 0
    }

    /// Builds a version directly from an already-known component sequence.
    pub fn new(v: Vec<i32>) -> (r: Self)
        requires
            forall|i: int| 0 <= i < v@.len() ==> v@[i] >= 0,
        ensures
            r@ == v@.map(|_i, x: i32| x as int),
    {
        Self { v }
    }

    /// Parses a version out of an arbitrary string: find the first ASCII
    /// digit, split what follows on `.` and `-`, decode tokens until one is
    /// not a plain number, and demand at least two components.
    pub fn from_str(s: &str) -> (r: Result<Version, ParseError>)
        ensures
            match r {
                Ok(v) => spec_parse(s@) == Ok::<Seq<int>, ParseError>(v@),
                Err(e) => spec_parse(s@) == Err::<Seq<int>, ParseError>(e),
            },
    {
        let n = s.unicode_len();
        let mut i: usize = 0;
        while i < n
            invariant
                n == s@.len(),
                0 <= i <= n,
                forall|t: int| 0 <= t < i ==> !is_digit(s@[t]),
            ensures
                0 <= i <= n,
                forall|t: int| 0 <= t < i ==> !is_digit(s@[t]),
                i < n ==> is_digit(s@[i as int]),
            decreases n - i,
        {
            let c = s.get_char(i);
            let cu = c as u32;
            if 48 <= cu && cu <= 57 {
                break ;
            }
            i += 1;
        }
        proof {
            lemma_first_digit_at(s@, i as int);
            lemma_first_digit(s@);
        }
        if i == n {
            return Err(ParseError::NoDigitFound);
        }
        let tail = s.substring_char(i, n);
        proof {
            assert(tail@ =~= s@.skip(i as int));
        }
        let comps = decode_components(tail, true);
        if comps.len() < 2 {
            Err(ParseError::InsufficientComponents)
        } else {
            let r = Version { v: comps };
            Ok(r)
        }
    }
}

impl PartialEq for Version {
    fn eq(&self, other: &Self) -> (r: bool)
        ensures
            r == (self@ == other@),
    {
        if self.v.len() != other.v.len() {
            proof {
                assert(self@.len() != other@.len());
            }
            return false;
        }
        let mut i: usize = 0;
        while i < self.v.len()
            invariant
                0 <= i <= self.v@.len(),
                self.v@.len() == other.v@.len(),
                forall|j: int| 0 <= j < i ==> self.v@[j] == other.v@[j],
            decreases self.v@.len() - i,
        {
            if self.v[i] != other.v[i] {
                proof {
                    assert(self@[i as int] != other@[i as int]);
                }
                return false;
            }
            i += 1;
        }
        proof {
            assert(self@ =~= other@);
        }
        true
    }
}

impl vstd::std_specs::cmp::PartialEqSpecImpl for Version {
    open spec fn obeys_eq_spec() -> bool {
        true
    }

    open spec fn eq_spec(&self, other: &Self) -> bool {
        self@ == other@
    }
}

impl PartialOrd for Version {
    fn partial_cmp(&self, other: &Self) -> (r: Option<core::cmp::Ordering>)
        ensures
            r == Some(seq_cmp(self@, other@)),
    {
        Some(crate::order::compare_components(&self.v, &other.v))
    }

    fn lt(&self, other: &Self) -> (r: bool)
        ensures
            r == seq_lt(self@, other@),
    {
        matches!(self.partial_cmp(other), Some(core::cmp::Ordering::Less))
    }
}

impl vstd::std_specs::cmp::PartialOrdSpecImpl for Version {
    open spec fn obeys_partial_cmp_spec() -> bool {
        true
    }

    open spec fn partial_cmp_spec(&self, other: &Self) -> Option<core::cmp::Ordering> {
        Some(seq_cmp(self@, other@))
    }
}

/// The decimal digit characters, lowest first.
pub open spec fn digit_char(d: int) -> char {
    if d == 0 {
        '0'
    } else if d == 1 {
        '1'
    } else if d == 2 {
        '2'
    } else if d == 3 {
        '3'
    } else if d == 4 {
        '4'
    } else if d == 5 {
        '5'
    } else if d == 6 {
        '6'
    } else if d == 7 {
        '7'
    } else if d == 8 {
        '8'
    } else {
        '9'
    }
}

/// The decimal rendering of a non-negative value, most significant first.
pub open spec fn dec_digits(n: int) -> Seq<char>
    decreases n,
{
    if n < 10 {
        seq![digit_char(n)]
    } else {
        dec_digits(n / 10) + seq![digit_char(n % 10)]
    }
}

/// Components joined by `.`, each rendered in decimal.
pub open spec fn spec_render(v: Seq<int>) -> Seq<char>
    decreases v.len(),
{
    if v.len() == 0 {
        Seq::empty()
    } else if v.len() == 1 {
        dec_digits(v[0])
    } else {
        spec_render(v.drop_last()) + seq!['.'] + dec_digits(v.last())
    }
}

fn digit_str(d: u8) -> (r: &'static str)
    requires
        d < 10,
    ensures
        r@ == seq![digit_char(d as int)],
{
    if d == 0 {
        proof {
            reveal_strlit("0");
            assert("0"@ =~= seq![digit_char(0)]);
        }
        "0"
    } else if d == 1 {
        proof {
            reveal_strlit("1");
            assert("1"@ =~= seq![digit_char(1)]);
        }
        "1"
    } else if d == 2 {
        proof {
            reveal_strlit("2");
            assert("2"@ =~= seq![digit_char(2)]);
        }
        "2"
    } else if d == 3 {
        proof {
            reveal_strlit("3");
            assert("3"@ =~= seq![digit_char(3)]);
        }
        "3"
    } else if d == 4 {
        proof {
            reveal_strlit("4");
            assert("4"@ =~= seq![digit_char(4)]);
        }
        "4"
    } else if d == 5 {
        proof {
            reveal_strlit("5");
            assert("5"@ =~= seq![digit_char(5)]);
        }
        "5"
    } else if d == 6 {
        proof {
            reveal_strlit("6");
            assert("6"@ =~= seq![digit_char(6)]);
        }
        "6"
    } else if d == 7 {
        proof {
            reveal_strlit("7");
            assert("7"@ =~= seq![digit_char(7)]);
        }
        "7"
    } else if d == 8 {
        proof {
            reveal_strlit("8");
            assert("8"@ =~= seq![digit_char(8)]);
        }
        "8"
    } else {
        proof {
            reveal_strlit("9");
            assert("9"@ =~= seq![digit_char(9)]);
        }
        "9"
    }
}

/// Appends the decimal rendering of a non-negative value.
fn push_digits(out: &mut String, x: i32)
    requires
        x >= 0,
    ensures
        final(out)@ == old(out)@ + dec_digits(x as int),
    decreases x,
{
    let ghost start = out@;
    if x >= 10 {
        push_digits(out, x / 10);
    }
    let d = (x % 10) as u8;
    out.append(digit_str(d));
    proof {
        if x >= 10 {
            assert(dec_digits(x as int) == dec_digits(x as int / 10) + seq![
                digit_char(x as int % 10),
            ]);
            assert(final(out)@ =~= start + dec_digits(x as int));
        } else {
            assert(dec_digits(x as int) == seq![digit_char(x as int)]);
            assert(final(out)@ =~= start + dec_digits(x as int));
        }
    }
}

impl Version {
    /// Renders the components joined by `.`.
    pub fn to_string(&self) -> (r: String)
        ensures
            r@ == spec_render(self@),
    {
        proof {
            use_type_invariant(self);
        }
        let mut out = String::new();
        let mut i: usize = 0;
        while i < self.v.len()
            invariant
                0 <= i <= self.v@.len(),
                forall|j: int| 0 <= j < self.v@.len() ==> self.v@[j] >= 0,
                out@ == spec_render(self@.take(i as int)),
            decreases self.v@.len() - i,
        {
            proof {
                assert(self@.take(i as int + 1).drop_last() =~= self@.take(i as int));
                assert(self@.take(i as int + 1).last() == self@[i as int]);
            }
            if i > 0 {
                proof {
                    reveal_strlit(".");
                }
                out.append(".");
            }
            push_digits(&mut out, self.v[i]);
            proof {
                assert(out@ =~= spec_render(self@.take(i as int + 1)));
            }
            i += 1;
        }
        proof {
            assert(self@.take(self.v@.len() as int) =~= self@);
        }
        out
    }
}

/// Prefix-decodes a delimited digit string into components; the executable
/// counterpart of `decode`.
pub fn decode_components(s: &str, dash: bool) -> (r: Vec<i32>)
    ensures
        r@.map(|_i, x: i32| x as int) == decode(s@, dash),
        forall|i: int| 0 <= i < r@.len() ==> r@[i] >= 0,
{
    let n = s.unicode_len();
    let mut comps: Vec<i32> = Vec::new();
    let mut pos: usize = 0;
    let ghost whole = decode(s@, dash);
    proof {
        assert(s@.skip(0) =~= s@);
        assert(comps@.map(|_i, x: i32| x as int) =~= Seq::<int>::empty());
    }
    loop
        invariant_except_break
            whole =~= comps@.map(|_i, x: i32| x as int) + decode(s@.skip(pos as int), dash),
        invariant
            n == s@.len(),
            0 <= pos <= n,
            forall|i: int| 0 <= i < comps@.len() ==> comps@[i] >= 0,
            whole == decode(s@, dash),
        ensures
            forall|i: int| 0 <= i < comps@.len() ==> comps@[i] >= 0,
            whole == comps@.map(|_i, x: i32| x as int),
        decreases n - pos,
    {
        // find the end of the current token
        let mut j: usize = pos;
        while j < n
            invariant
                n == s@.len(),
                pos <= j <= n,
                forall|t: int| pos <= t < j ==> !is_delim(s@[t], dash),
            ensures
                pos <= j <= n,
                forall|t: int| pos <= t < j ==> !is_delim(s@[t], dash),
                j < n ==> is_delim(s@[j as int], dash),
            decreases n - j,
        {
            let c = s.get_char(j);
            if c == '.' || (dash && c == '-') {
                break ;
            }
            j += 1;
        }
        let ghost rest = s@.skip(pos as int);
        let ghost k = j - pos;
        proof {
            assert(forall|t: int| 0 <= t < rest.len() ==> rest[t] == s@[t + pos]);
            lemma_first_delim_at(rest, dash, k);
        }
        let ghost tok = rest.take(k);
        proof {
            assert(forall|t: int| 0 <= t < k ==> tok[t] == s@[t + pos]);
        }
        if j == pos {
            // empty token: the decode stops here
            proof {
                assert(!valid_token(tok));
                assert(decode(rest, dash) =~= Seq::<int>::empty());
                assert(whole =~= comps@.map(|_i, x: i32| x as int));
            }
            break ;
        }
        // validate the token and accumulate its value
        let mut val: u64 = 0;
        let mut i: usize = pos;
        let mut good = true;
        proof {
            assert(tok.take(0) =~= Seq::<char>::empty());
        }
        while i < j
            invariant_except_break
                good,
            invariant
                n == s@.len(),
                pos <= i <= j <= n,
                k == j - pos,
                rest == s@.skip(pos as int),
                tok == rest.take(k),
                k <= rest.len(),
                forall|t: int| 0 <= t < k ==> tok[t] == s@[t + pos],
                forall|t: int| pos <= t < i ==> is_digit(s@[t]),
                val == token_val(tok.take(i - pos)),
                val <= i32::MAX as u64,
            ensures
                pos <= i <= j,
                good ==> i == j && val == token_val(tok.take(i - pos)) && val <= i32::MAX as u64
                    && (forall|t: int| pos <= t < j ==> is_digit(s@[t])),
                !good ==> !valid_token(tok),
            decreases j - i,
        {
            let c = s.get_char(i);
            let cu = c as u32;
            if !(48 <= cu && cu <= 57) {
                good = false;
                proof {
                    assert(!is_digit(tok[i - pos]));
                    assert(!valid_token(tok));
                }
                break ;
            }
            let d = (cu - 48) as u64;
            let nv = val * 10 + d;
            proof {
                assert(tok.take(i - pos + 1).drop_last() =~= tok.take(i - pos));
                assert(tok.take(i - pos + 1).last() == s@[i as int]);
                assert(token_val(tok.take(i - pos + 1)) == 10 * val + d);
            }
            if nv > 2147483647u64 {
                good = false;
                proof {
                    if all_digits(tok) {
                        lemma_token_val_prefix(tok, i - pos + 1);
                    }
                    assert(!valid_token(tok));
                }
                break ;
            }
            val = nv;
            i += 1;
        }
        if !good {
            proof {
                assert(decode(rest, dash) =~= Seq::<int>::empty());
                assert(whole =~= comps@.map(|_i, x: i32| x as int));
            }
            break ;
        }
        proof {
            assert(tok.take(k) =~= tok);
            assert(all_digits(tok)) by {
                assert(forall|t: int| 0 <= t < k ==> is_digit(#[trigger] tok[t])) by {
                    assert(forall|t: int| 0 <= t < k ==> #[trigger] tok[t] == s@[t + pos]);
                }
            }
            assert(valid_token(tok));
        }
        let ghost prev = comps@;
        comps.push(val as i32);
        proof {
            assert(comps@.map(|_i, x: i32| x as int) =~= prev.map(|_i, x: i32| x as int).push(
                token_val(tok),
            ));
        }
        if j == n {
            proof {
                assert(decode(rest, dash) =~= seq![token_val(tok)]);
                assert(whole =~= comps@.map(|_i, x: i32| x as int));
            }
            break ;
        }
        proof {
            assert(rest.skip(k + 1) =~= s@.skip(j + 1));
            assert(decode(rest, dash) =~= seq![token_val(tok)] + decode(s@.skip(j + 1), dash));
            assert(whole =~= comps@.map(|_i, x: i32| x as int) + decode(s@.skip(j + 1), dash));
        }
        pos = j + 1;
    }
    comps
}

} // verus!
