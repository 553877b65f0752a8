//! Device metadata recovered from path and sheet-name tokens.
//!
//! The workbook path and the run's sheet name are cut into whitespace
//! and path-separator tokens, and each attribute is searched for
//! independently by a case-insensitive marker substring.  Every
//! attribute is optional: absence means its token was not found, never
//! that the value is zero.

use crate::decimal::Decimal;
use crate::text::{
    after_last_eq, after_last_eq_str, contains_ci, contains_seq, is_digit, lower, parse_dec,
    parse_dec_str, str_eq, to_lower_str, tokens,
};
use vstd::prelude::*;

verus! {

/// The known wafer process tags.
#[derive(Debug, Clone, Copy, PartialEq, Eq, Structural)]
pub enum Process {
    MINOXG,
    GF22,
}

/// Device under test.  Width and length are in nanometers.
#[derive(Debug, PartialEq)]
pub struct Device {
    pub wafer: Option<Process>,
    pub die: Option<String>,
    pub temperature: Option<u32>,
    pub width: Option<Decimal>,
    pub length: Option<Decimal>,
}

/// Ghost image of a device.
pub struct DeviceV {
    pub wafer: Option<Process>,
    pub die: Option<Seq<char>>,
    pub temperature: Option<u32>,
    pub width: Option<Decimal>,
    pub length: Option<Decimal>,
}

impl View for Device {
    type V = DeviceV;

    open spec fn view(&self) -> DeviceV {
        DeviceV {
            wafer: self.wafer,
            die: match &self.die {
                Some(d) => Some(d@),
                None => None,
            },
            temperature: self.temperature,
            width: self.width,
            length: self.length,
        }
    }
}

impl Clone for Device {
    fn clone(&self) -> (r: Self)
        ensures
            r@ == self@,
    {
        Device {
            wafer: self.wafer,
            die: match &self.die {
                Some(d) => Some(d.clone()),
                None => None,
            },
            temperature: self.temperature,
            width: self.width,
            length: self.length,
        }
    }
}

// ---------------------------------------------------------------------
// Token model
// ---------------------------------------------------------------------

/// The flat token list: the path cut on path separators and
/// whitespace, then the sheet name cut on whitespace.
pub open spec fn device_tokens(path: Seq<char>, sheet: Seq<char>) -> Seq<Seq<char>> {
    tokens(path, true) + tokens(sheet, false)
}

/// First token whose case-folded text contains `pat`.
pub open spec fn find_match(toks: Seq<Seq<char>>, pat: Seq<char>) -> Option<Seq<char>>
    decreases toks.len(),
{
    if toks.len() == 0 {
        None
    } else if contains_seq(lower(toks[0]), pat) {
        Some(toks[0])
    } else {
        find_match(toks.drop_first(), pat)
    }
}

/// The value parts of every token containing `pat`, in token order.
pub open spec fn candidates(toks: Seq<Seq<char>>, pat: Seq<char>) -> Seq<Seq<char>>
    decreases toks.len(),
{
    if toks.len() == 0 {
        Seq::empty()
    } else {
        (if contains_seq(lower(toks[0]), pat) {
            seq![after_last_eq(toks[0])]
        } else {
            Seq::<Seq<char>>::empty()
        }) + candidates(toks.drop_first(), pat)
    }
}

/// The digits of a token, in order.
pub open spec fn digits_of(s: Seq<char>) -> Seq<char>
    decreases s.len(),
{
    if s.len() == 0 {
        Seq::empty()
    } else {
        (if is_digit(s[0]) {
            seq![s[0]]
        } else {
            Seq::<char>::empty()
        }) + digits_of(s.drop_first())
    }
}

// ---------------------------------------------------------------------
// Attribute decodes
// ---------------------------------------------------------------------

/// The wafer process: the value after the last `=` of the first token
/// containing "process", case-folded, against the known tags.
pub open spec fn wafer_v(toks: Seq<Seq<char>>) -> Option<Process> {
    match find_match(toks, "process"@) {
        None => None,
        Some(t) => {
            let v = lower(after_last_eq(t));
            if v == "minoxg"@ {
                Some(Process::MINOXG)
            } else if v == "gf22"@ {
                Some(Process::GF22)
            } else {
                None
            }
        },
    }
}

/// The die label: the value after the last `=` of the first token
/// containing "die".
pub open spec fn die_v(toks: Seq<Seq<char>>) -> Option<Seq<char>> {
    match find_match(toks, "die"@) {
        None => None,
        Some(t) => Some(after_last_eq(t)),
    }
}

/// The temperature in Kelvin: the digits of the value part (after the
/// last `=`) of the first token containing "t", read as one numeral.
pub open spec fn temperature_v(toks: Seq<Seq<char>>) -> Option<u32> {
    match find_match(toks, "t"@) {
        None => None,
        Some(t) => match parse_dec(digits_of(after_last_eq(t)), u32::MAX as int) {
            Some(v) => Some(v as u32),
            None => None,
        },
    }
}

/// Nanometer value of a metric token: a trailing unit suffix scales
/// the leading numeral.  An unknown suffix or unparseable numeral
/// yields absence.
pub open spec fn from_metric_v(s: Seq<char>) -> Option<Decimal> {
    let two = if s.len() >= 2 {
        s.subrange(s.len() - 2, s.len() as int)
    } else {
        Seq::<char>::empty()
    };
    let shift: Option<int> = if s.len() >= 2 && two == "mm"@ {
        Some(6)
    } else if s.len() >= 2 && two == "um"@ {
        Some(3)
    } else if s.len() >= 2 && two == "nm"@ {
        Some(0)
    } else if s.len() >= 2 && two == "pm"@ {
        Some(-3)
    } else {
        None
    };
    match shift {
        Some(k) => shifted(
            crate::decimal::parse_decimal_v(s.subrange(0, s.len() - 2)),
            k,
        ),
        None => {
            if s.len() >= 1 && s[s.len() - 1] == 'm' {
                shifted(crate::decimal::parse_decimal_v(s.subrange(0, s.len() - 1)), 9)
            } else {
                None
            }
        },
    }
}

/// Exponent shift of a parsed numeral, absent on exponent overflow.
pub open spec fn shifted(d: Option<Decimal>, k: int) -> Option<Decimal> {
    match d {
        None => None,
        Some(d) => {
            if i64::MIN <= d.exp + k <= i64::MAX {
                Some(Decimal { neg: d.neg, mant: d.mant, exp: (d.exp + k) as i64 })
            } else {
                None
            }
        },
    }
}

/// A dimension (width or length): present only when every candidate
/// token agrees, to avoid silently guessing between two co-occurring
/// values.
pub open spec fn dimension_v(toks: Seq<Seq<char>>, pat: Seq<char>) -> Option<Decimal> {
    let cs = candidates(toks, pat);
    if cs.len() >= 1 && (forall|i: int| 0 <= i < cs.len() ==> #[trigger] cs[i] == cs[0]) {
        from_metric_v(cs[0])
    } else {
        None
    }
}

/// The whole device decode.
pub open spec fn device_v(path: Seq<char>, sheet: Seq<char>) -> DeviceV {
    let toks = device_tokens(path, sheet);
    DeviceV {
        wafer: wafer_v(toks),
        die: die_v(toks),
        temperature: temperature_v(toks),
        width: dimension_v(toks, "w="@),
        length: dimension_v(toks, "l="@),
    }
}

// ---------------------------------------------------------------------
// Executable side
// ---------------------------------------------------------------------

/// First token containing `pat` (case-folded), as an index.
fn find_match_ex(toks: &Vec<String>, pat: &str, Ghost(tv): Ghost<Seq<Seq<char>>>) -> (r: Option<
    usize,
>)
    requires
        toks@.map_values(|t: String| t@) == tv,
    ensures
        match r {
            Some(i) => i < toks@.len() && find_match(tv, pat@) == Some(tv[i as int]),
            None => find_match(tv, pat@) is None,
        },
{
    let mut i: usize = 0;
    proof {
        assert(tv.subrange(0, tv.len() as int) =~= tv);
    }
    while i < toks.len()
        invariant
            toks@.map_values(|t: String| t@) == tv,
            i <= tv.len(),
            find_match(tv.subrange(i as int, tv.len() as int), pat@) == find_match(tv, pat@),
            forall|j: int| 0 <= j < i ==> !contains_seq(lower(#[trigger] tv[j]), pat@),
        decreases tv.len() - i,
    {
        let ghost rest = tv.subrange(i as int, tv.len() as int);
        proof {
            assert(rest[0] == tv[i as int]);
            assert(rest.drop_first() =~= tv.subrange(i + 1, tv.len() as int));
            assert(tv[i as int] == toks@[i as int]@);
        }
        if contains_ci(toks[i].as_str(), pat) {
            return Some(i);
        }
        i = i + 1;
    }
    proof {
        assert(tv.subrange(tv.len() as int, tv.len() as int) =~= Seq::<Seq<char>>::empty());
    }
    None
}

/// The value parts of every token containing `pat` (case-folded).
fn candidates_ex(toks: &Vec<String>, pat: &str, Ghost(tv): Ghost<Seq<Seq<char>>>) -> (out: Vec<
    String,
>)
    requires
        toks@.map_values(|t: String| t@) == tv,
    ensures
        out@.map_values(|t: String| t@) == candidates(tv, pat@),
{
    let mut out: Vec<String> = Vec::new();
    let mut i: usize = 0;
    let ghost f = |t: String| t@;
    proof {
        assert(tv.subrange(0, tv.len() as int) =~= tv);
        assert(out@.map_values(f) =~= Seq::<Seq<char>>::empty());
    }
    while i < toks.len()
        invariant
            toks@.map_values(|t: String| t@) == tv,
            i <= tv.len(),
            out@.map_values(|t: String| t@) + candidates(
                tv.subrange(i as int, tv.len() as int),
                pat@,
            ) =~= candidates(tv, pat@),
        decreases tv.len() - i,
    {
        let ghost rest = tv.subrange(i as int, tv.len() as int);
        proof {
            assert(rest[0] == tv[i as int]);
            assert(rest.drop_first() =~= tv.subrange(i + 1, tv.len() as int));
            assert(tv[i as int] == toks@[i as int]@);
        }
        if contains_ci(toks[i].as_str(), pat) {
            let v = after_last_eq_str(toks[i].as_str());
            proof {
                let g = |t: String| t@;
                assert(out@.push(v).map_values(g) =~= out@.map_values(g).push(v@));
            }
            out.push(v);
        }
        i = i + 1;
    }
    proof {
        assert(tv.subrange(tv.len() as int, tv.len() as int) =~= Seq::<Seq<char>>::empty());
    }
    out
}

/// The digits of a string, in order.
fn digits_of_ex(s: &str) -> (out: String)
    ensures
        out@ == digits_of(s@),
{
    let n = s.unicode_len();
    let mut out = String::new();
    let mut i: usize = 0;
    proof {
        assert(s@.subrange(0, n as int) =~= s@);
        assert(out@ =~= Seq::<char>::empty());
    }
    while i < n
        invariant
            n == s@.len(),
            i <= n,
            out@ + digits_of(s@.subrange(i as int, n as int)) =~= digits_of(s@),
        decreases n - i,
    {
        let ghost rest = s@.subrange(i as int, n as int);
        proof {
            assert(rest[0] == s@[i as int]);
            assert(rest.drop_first() =~= s@.subrange(i + 1, n as int));
        }
        let c = s.get_char(i);
        if '0' <= c && c <= '9' {
            crate::text::push_char(&mut out, c);
        }
        i = i + 1;
    }
    proof {
        assert(s@.subrange(n as int, n as int) =~= Seq::<char>::empty());
    }
    out
}

/// Nanometer value of a metric token.
fn from_metric(string: &str) -> (r: Option<Decimal>)
    ensures
        r == from_metric_v(string@),
{
    let n = string.unicode_len();
    let ghost two = if string@.len() >= 2 {
        string@.subrange(string@.len() - 2, string@.len() as int)
    } else {
        Seq::<char>::empty()
    };
    if n >= 2 {
        let suffix = string.substring_char(n - 2, n);
        proof {
            assert(suffix@ == two);
        }
        let shift: Option<i64> = if str_eq(suffix, "mm") {
            Some(6)
        } else if str_eq(suffix, "um") {
            Some(3)
        } else if str_eq(suffix, "nm") {
            Some(0)
        } else if str_eq(suffix, "pm") {
            Some(-3)
        } else {
            None
        };
        if let Some(k) = shift {
            let head = string.substring_char(0, n - 2);
            return match crate::decimal::parse_decimal(head) {
                Some(d) => crate::decimal::decimal_shift(d, k),
                None => None,
            };
        }
    }
    if n >= 1 && string.get_char(n - 1) == 'm' {
        let head = string.substring_char(0, n - 1);
        match crate::decimal::parse_decimal(head) {
            Some(d) => crate::decimal::decimal_shift(d, 9),
            None => None,
        }
    } else {
        None
    }
}

/// A dimension: the agreed candidate value, converted to nanometers.
fn dimension_ex(toks: &Vec<String>, pat: &str, Ghost(tv): Ghost<Seq<Seq<char>>>) -> (r: Option<
    Decimal,
>)
    requires
        toks@.map_values(|t: String| t@) == tv,
    ensures
        r == dimension_v(tv, pat@),
{
    let cs = candidates_ex(toks, pat, Ghost(tv));
    if cs.len() == 0 {
        return None;
    }
    let mut i: usize = 1;
    while i < cs.len()
        invariant
            cs@.map_values(|t: String| t@) == candidates(tv, pat@),
            1 <= i <= cs@.len(),
            forall|j: int|
                0 <= j < i ==> #[trigger] candidates(tv, pat@)[j] == candidates(tv, pat@)[0],
        decreases cs@.len() - i,
    {
        proof {
            assert(candidates(tv, pat@)[i as int] == cs@[i as int]@);
            assert(candidates(tv, pat@)[0] == cs@[0]@);
        }
        if !str_eq(cs[i].as_str(), cs[0].as_str()) {
            proof {
                let jj = i as int;
                assert(0 <= jj < candidates(tv, pat@).len() && candidates(tv, pat@)[jj]
                    != candidates(tv, pat@)[0]);
                assert(!(forall|j: int|
                    0 <= j < candidates(tv, pat@).len() ==> #[trigger] candidates(tv, pat@)[j]
                        == candidates(tv, pat@)[0]));
            }
            return None;
        }
        i = i + 1;
    }
    proof {
        assert(candidates(tv, pat@)[0] == cs@[0]@);
    }
    from_metric(cs[0].as_str())
}

impl Device {
    /// Recover the device attributes from the workbook path and the
    /// run's sheet name.
    pub fn extract(path: String, sheet_name: String) -> (r: Device)
        ensures
            r@ == device_v(path@, sheet_name@),
    {
        let mut toks = crate::text::tokenize(path.as_str(), true);
        let mut sheet_toks = crate::text::tokenize(sheet_name.as_str(), false);
        let ghost f = |t: String| t@;
        let ghost ptoks = toks@.map_values(f);
        let ghost stoks = sheet_toks@.map_values(f);
        let ghost tv = device_tokens(path@, sheet_name@);
        let mut k: usize = 0;
        let ghost snap = sheet_toks@;
        while k < sheet_toks.len()
            invariant
                snap == sheet_toks@,
                k <= snap.len(),
                toks@.len() == ptoks.len() + k,
                forall|j: int| 0 <= j < ptoks.len() ==> #[trigger] toks@[j]@ == ptoks[j],
                forall|j: int|
                    0 <= j < k ==> #[trigger] toks@[ptoks.len() + j]@ == snap[j]@,
            decreases snap.len() - k,
        {
            let t = sheet_toks[k].clone();
            toks.push(t);
            k = k + 1;
        }
        proof {
            assert(toks@.map_values(f).len() == tv.len());
            assert forall|j: int| 0 <= j < toks@.len() implies toks@.map_values(f)[j] == tv[j] by {
                if j < ptoks.len() {
                    assert(toks@[j]@ == ptoks[j]);
                } else {
                    let jj = j - ptoks.len();
                    assert(toks@[ptoks.len() + jj]@ == snap[jj]@);
                    assert(ptoks.len() + jj == j);
                    assert(stoks[jj] == snap[jj]@);
                }
            }
            assert(toks@.map_values(f) =~= tv);
        }
        let wafer = match find_match_ex(&toks, "process", Ghost(tv)) {
            None => None,
            Some(i) => {
                let v = after_last_eq_str(toks[i].as_str());
                let low = to_lower_str(v.as_str());
                proof {
                    assert(tv[i as int] == toks@[i as int]@);
                }
                if str_eq(low.as_str(), "minoxg") {
                    Some(Process::MINOXG)
                } else if str_eq(low.as_str(), "gf22") {
                    Some(Process::GF22)
                } else {
                    None
                }
            },
        };
        let die = match find_match_ex(&toks, "die", Ghost(tv)) {
            None => None,
            Some(i) => {
                proof {
                    assert(tv[i as int] == toks@[i as int]@);
                }
                Some(after_last_eq_str(toks[i].as_str()))
            },
        };
        let temperature = match find_match_ex(&toks, "t", Ghost(tv)) {
            None => None,
            Some(i) => {
                proof {
                    assert(tv[i as int] == toks@[i as int]@);
                }
                let v = after_last_eq_str(toks[i].as_str());
                let ds = digits_of_ex(v.as_str());
                match parse_dec_str(ds.as_str(), 4294967295) {
                    Some(v) => Some(v as u32),
                    None => None,
                }
            },
        };
        let width = dimension_ex(&toks, "w=", Ghost(tv));
        let length = dimension_ex(&toks, "l=", Ghost(tv));
        let r = Device { wafer, die, temperature, width, length };
        proof {
            assert(r@.die == die_v(tv));
        }
        r
    }
}

} // verus!
