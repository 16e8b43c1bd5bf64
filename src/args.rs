//! Run specifications of the form `<cores>X<open_files>X<benchmark>X<write_ratio>`.
use vstd::prelude::*;

verus! {

/// Why a run specification was refused.
#[derive(Clone, Copy, Debug, PartialEq, Eq, Structural)]
pub enum ArgsError {
    /// Fewer than four `X`-separated fields.
    MissingField,
    /// A numeric field is empty.
    Empty,
    /// A numeric field holds a character that is not a decimal digit.
    InvalidDigit,
    /// A numeric field does not fit in a `usize`.
    Overflow,
}

/// The parameters of one benchmark run.
#[derive(Debug)]
pub struct ARGs {
    pub cores: usize,
    pub open_files: usize,
    pub benchmark: String,
    pub write_ratio: usize,
}

impl PartialEq for ARGs {
    fn eq(&self, o: &ARGs) -> (r: bool) {
        self.cores == o.cores && self.open_files == o.open_files && self.benchmark == o.benchmark
            && self.write_ratio == o.write_ratio
    }
}

impl vstd::std_specs::cmp::PartialEqSpecImpl for ARGs {
    open spec fn obeys_eq_spec() -> bool {
        true
    }

    open spec fn eq_spec(&self, o: &ARGs) -> bool {
        self.cores == o.cores && self.open_files == o.open_files && self.benchmark@
            == o.benchmark@ && self.write_ratio == o.write_ratio
    }
}

pub open spec fn is_digit(c: char) -> bool {
    '0' <= c && c <= '9'
}

/// The number that a string of decimal digits denotes.
pub open spec fn digits_value(s: Seq<char>) -> nat
    decreases s.len(),
{
    if s.len() == 0 {
        0
    } else {
        digits_value(s.drop_last()) * 10 + (s.last() as nat - '0' as nat) as nat
    }
}

/// Decimal digits, at least one, whose value fits in a `usize`.
pub open spec fn parse_digits(d: Seq<char>) -> Result<usize, ArgsError> {
    if d.len() == 0 {
        Err(ArgsError::InvalidDigit)
    } else if exists|i: int| 0 <= i < d.len() && !is_digit(#[trigger] d[i]) {
        Err(ArgsError::InvalidDigit)
    } else if digits_value(d) > usize::MAX {
        Err(ArgsError::Overflow)
    } else {
        Ok(digits_value(d) as usize)
    }
}

/// The digits of a numeric field: what follows one optional leading `+`.
pub open spec fn digits_part(s: Seq<char>) -> Seq<char> {
    if s.len() > 0 && s[0] == '+' {
        s.drop_first()
    } else {
        s
    }
}

/// A numeric field: an optional `+`, then one or more decimal digits whose
/// value fits in a `usize`. An empty field, and nothing else, is `Empty`.
pub open spec fn parse_number(s: Seq<char>) -> Result<usize, ArgsError> {
    if s.len() == 0 {
        Err(ArgsError::Empty)
    } else {
        parse_digits(digits_part(s))
    }
}

/// The index of the first `X` at or after `i`, or the length of `s` if there is none.
pub open spec fn next_sep(s: Seq<char>, i: int) -> int
    decreases s.len() - i,
{
    if i >= s.len() {
        s.len() as int
    } else if s[i] == 'X' {
        i
    } else {
        next_sep(s, i + 1)
    }
}

/// The four fields of a run specification, read left to right; the first
/// failure is the one reported, and anything after a fourth `X` is ignored.
pub open spec fn parse_args(s: Seq<char>) -> Result<(usize, usize, Seq<char>, usize), ArgsError> {
    let e0 = next_sep(s, 0);
    let e1 = next_sep(s, e0 + 1);
    let e2 = next_sep(s, e1 + 1);
    let e3 = next_sep(s, e2 + 1);
    match parse_number(s.subrange(0, e0)) {
        Err(e) => Err(e),
        Ok(cores) => if e0 >= s.len() {
            Err(ArgsError::MissingField)
        } else {
            match parse_number(s.subrange(e0 + 1, e1)) {
                Err(e) => Err(e),
                Ok(open_files) => if e1 >= s.len() || e2 >= s.len() {
                    Err(ArgsError::MissingField)
                } else {
                    match parse_number(s.subrange(e2 + 1, e3)) {
                        Err(e) => Err(e),
                        Ok(write_ratio) => Ok(
                            (cores, open_files, s.subrange(e1 + 1, e2), write_ratio),
                        ),
                    }
                },
            }
        },
    }
}

proof fn lemma_next_sep_bounds(s: Seq<char>, i: int)
    requires
        0 <= i,
    ensures
        i <= next_sep(s, i) || i > s.len(),
        next_sep(s, i) <= s.len(),
    decreases s.len() - i,
{
    if i < s.len() && s[i] != 'X' {
        lemma_next_sep_bounds(s, i + 1);
    }
}

/// A digit string's value never falls when digits are appended.
proof fn lemma_digits_monotone(s: Seq<char>, k: int)
    requires
        0 <= k <= s.len(),
        forall|i: int| 0 <= i < s.len() ==> is_digit(#[trigger] s[i]),
    ensures
        digits_value(s.subrange(0, k)) <= digits_value(s),
    decreases s.len() - k,
{
    if k < s.len() {
        lemma_digits_monotone(s, k + 1);
        assert(s.subrange(0, k + 1).drop_last() =~= s.subrange(0, k));
        assert(s.subrange(0, k + 1).last() == s[k]);
        assert(is_digit(s[k]));
        assert(digits_value(s.subrange(0, k + 1)) == digits_value(s.subrange(0, k)) * 10
            + (s[k] as nat - '0' as nat) as nat);
    } else {
        assert(s.subrange(0, k) =~= s);
    }
}

/// `next_sep` finds the first `X` from `i` on.
proof fn lemma_next_sep_at(s: Seq<char>, i: int, j: int)
    requires
        0 <= i <= j <= s.len(),
        forall|k: int| i <= k < j ==> s[k] != 'X',
        j == s.len() || s[j] == 'X',
    ensures
        next_sep(s, i) == j,
    decreases j - i,
{
    if i < j {
        lemma_next_sep_at(s, i + 1, j);
    }
}

/// A numeric field holds no separator.
pub open spec fn all_digits(s: Seq<char>) -> bool {
    forall|i: int| 0 <= i < s.len() ==> is_digit(#[trigger] s[i])
}

/// The specification `cores X open_files X name X write_ratio` reads back as
/// exactly its four fields, whenever the numbers are non-empty decimal digits
/// that fit in a `usize` and the name holds no `X`.
pub proof fn lemma_parse_args_fields(c: Seq<char>, o: Seq<char>, name: Seq<char>, w: Seq<char>)
    requires
        c.len() > 0 && all_digits(c) && digits_value(c) <= usize::MAX,
        o.len() > 0 && all_digits(o) && digits_value(o) <= usize::MAX,
        w.len() > 0 && all_digits(w) && digits_value(w) <= usize::MAX,
        forall|i: int| 0 <= i < name.len() ==> name[i] != 'X',
    ensures
        parse_args(c + seq!['X'] + o + seq!['X'] + name + seq!['X'] + w) == Ok::<_, ArgsError>(
            (
                digits_value(c) as usize,
                digits_value(o) as usize,
                name,
                digits_value(w) as usize,
            ),
        ),
{
    let s = c + seq!['X'] + o + seq!['X'] + name + seq!['X'] + w;
    let e0 = c.len() as int;
    let e1 = e0 + 1 + o.len();
    let e2 = e1 + 1 + name.len();
    let e3 = s.len() as int;
    assert(s.subrange(0, e0) =~= c);
    assert(s.subrange(e0 + 1, e1) =~= o);
    assert(s.subrange(e1 + 1, e2) =~= name);
    assert(s.subrange(e2 + 1, e3) =~= w);
    assert forall|k: int| 0 <= k < e0 implies s[k] != 'X' by {
        assert(s[k] == c[k] && is_digit(c[k]));
    }
    assert forall|k: int| e0 + 1 <= k < e1 implies s[k] != 'X' by {
        assert(s[k] == o[k - e0 - 1] && is_digit(o[k - e0 - 1]));
    }
    assert forall|k: int| e1 + 1 <= k < e2 implies s[k] != 'X' by {
        assert(s[k] == name[k - e1 - 1]);
    }
    assert forall|k: int| e2 + 1 <= k < e3 implies s[k] != 'X' by {
        assert(s[k] == w[k - e2 - 1] && is_digit(w[k - e2 - 1]));
    }
    assert(s[e0] == 'X' && s[e1] == 'X' && s[e2] == 'X');
    lemma_next_sep_at(s, 0, e0);
    lemma_next_sep_at(s, e0 + 1, e1);
    lemma_next_sep_at(s, e1 + 1, e2);
    lemma_next_sep_at(s, e2 + 1, e3);
}

/// A core count that is empty, or whose part after an optional `+` is empty
/// or holds a character other than a digit, makes the whole specification fail.
pub proof fn lemma_parse_args_bad_cores(c: Seq<char>, rest: Seq<char>)
    requires
        forall|i: int| 0 <= i < c.len() ==> c[i] != 'X',
        c.len() == 0 || digits_part(c).len() == 0 || !all_digits(digits_part(c)),
    ensures
        parse_args(c + seq!['X'] + rest) is Err,
{
    let s = c + seq!['X'] + rest;
    assert forall|k: int| 0 <= k < c.len() implies s[k] != 'X' by {
        assert(s[k] == c[k]);
    }
    lemma_next_sep_at(s, 0, c.len() as int);
    assert(s.subrange(0, c.len() as int) =~= c);
}

/// The first `X` at or after `i`.
fn find_sep(s: &str, len: usize, i: usize) -> (r: usize)
    requires
        len == s@.len(),
    ensures
        r as int == next_sep(s@, i as int),
{
    if i >= len {
        return len;
    }
    let mut j: usize = i;
    while j < len
        invariant
            len == s@.len(),
            i <= j <= len,
            next_sep(s@, i as int) == next_sep(s@, j as int),
        decreases len - j,
    {
        if s.get_char(j) == 'X' {
            return j;
        }
        j = j + 1;
    }
    j
}

/// Reads the digits `s[from..to]`.
fn parse_digits_at(s: &str, from: usize, to: usize) -> (r: Result<usize, ArgsError>)
    requires
        from <= to <= s@.len(),
    ensures
        r == parse_digits(s@.subrange(from as int, to as int)),
{
    let ghost t = s@.subrange(from as int, to as int);
    if from == to {
        return Err(ArgsError::InvalidDigit);
    }
    let mut i: usize = from;
    while i < to
        invariant
            from <= i <= to <= s@.len(),
            t == s@.subrange(from as int, to as int),
            forall|k: int| 0 <= k < i - from ==> is_digit(#[trigger] t[k]),
        decreases to - i,
    {
        let c = s.get_char(i);
        if !('0' <= c && c <= '9') {
            assert(!is_digit(t[i - from]));
            return Err(ArgsError::InvalidDigit);
        }
        i = i + 1;
    }
    let mut acc: usize = 0;
    let mut i: usize = from;
    while i < to
        invariant
            from <= i <= to <= s@.len(),
            t == s@.subrange(from as int, to as int),
            forall|k: int| 0 <= k < t.len() ==> is_digit(#[trigger] t[k]),
            acc == digits_value(t.subrange(0, i - from)),
        decreases to - i,
    {
        assert(t[i - from] == s@[i as int]);
        assert(is_digit(t[i - from]));
        let d = (s.get_char(i) as u32 - '0' as u32) as usize;
        assert(t.subrange(0, i - from + 1).drop_last() =~= t.subrange(0, i - from));
        assert(t.subrange(0, i - from + 1).last() == t[i - from]);
        if acc > (usize::MAX - d) / 10 {
            proof {
                lemma_digits_monotone(t, i - from + 1);
            }
            return Err(ArgsError::Overflow);
        }
        acc = acc * 10 + d;
        i = i + 1;
    }
    assert(t.subrange(0, t.len() as int) =~= t);
    Ok(acc)
}

/// Reads the numeric field `s[from..to]`.
fn parse_number_at(s: &str, from: usize, to: usize) -> (r: Result<usize, ArgsError>)
    requires
        from <= to <= s@.len(),
    ensures
        r == parse_number(s@.subrange(from as int, to as int)),
{
    if from == to {
        return Err(ArgsError::Empty);
    }
    let ghost t = s@.subrange(from as int, to as int);
    if s.get_char(from) == '+' {
        assert(t.drop_first() =~= s@.subrange(from + 1, to as int));
        parse_digits_at(s, from + 1, to)
    } else {
        parse_digits_at(s, from, to)
    }
}

impl ARGs {
    /// Reads a run specification such as `4X16XmixX20`.
    pub fn parse(s: &str) -> (r: Result<ARGs, ArgsError>)
        ensures
            match r {
                Ok(a) => parse_args(s@) == Ok::<_, ArgsError>(
                    (a.cores, a.open_files, a.benchmark@, a.write_ratio),
                ),
                Err(e) => parse_args(s@) == Err::<(usize, usize, Seq<char>, usize), _>(e),
            },
    {
        let len = s.unicode_len();
        let e0 = find_sep(s, len, 0);
        proof {
            lemma_next_sep_bounds(s@, 0);
        }
        let cores = match parse_number_at(s, 0, e0) {
            Ok(v) => v,
            Err(e) => return Err(e),
        };
        if e0 >= len {
            return Err(ArgsError::MissingField);
        }
        let e1 = find_sep(s, len, e0 + 1);
        proof {
            lemma_next_sep_bounds(s@, e0 + 1);
        }
        let open_files = match parse_number_at(s, e0 + 1, e1) {
            Ok(v) => v,
            Err(e) => return Err(e),
        };
        if e1 >= len {
            return Err(ArgsError::MissingField);
        }
        let e2 = find_sep(s, len, e1 + 1);
        proof {
            lemma_next_sep_bounds(s@, e1 + 1);
        }
        if e2 >= len {
            return Err(ArgsError::MissingField);
        }
        let e3 = find_sep(s, len, e2 + 1);
        proof {
            lemma_next_sep_bounds(s@, e2 + 1);
        }
        let write_ratio = match parse_number_at(s, e2 + 1, e3) {
            Ok(v) => v,
            Err(e) => return Err(e),
        };
        let benchmark = String::from_str(s.substring_char(e1 + 1, e2));
        Ok(ARGs { cores, open_files, benchmark, write_ratio })
    }
}

impl core::str::FromStr for ARGs {
    type Err = ArgsError;

    /// Reads a run specification such as `4X16XmixX20`, as `ARGs::parse` does.
    fn from_str(s: &str) -> (r: Result<ARGs, ArgsError>)
        ensures
            match r {
                Ok(a) => parse_args(s@) == Ok::<_, ArgsError>(
                    (a.cores, a.open_files, a.benchmark@, a.write_ratio),
                ),
                Err(e) => parse_args(s@) == Err::<(usize, usize, Seq<char>, usize), _>(e),
            },
    {
        ARGs::parse(s)
    }
}

} // verus!
