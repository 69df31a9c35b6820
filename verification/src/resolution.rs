//! The resolution settings of the capture device: the list of resolutions it
//! offers, the one currently selected as a `"WIDTHxHEIGHT"` string, and that
//! string parsed into its two dimensions.

use vstd::prelude::*;

verus! {

/// Whether `c` is an ASCII decimal digit.
pub open spec fn is_ascii_digit(c: char) -> bool {
    48 <= c as int <= 57
}

/// The number denoted by a sequence of decimal digits (most significant
/// first); the empty sequence denotes 0.
pub open spec fn digits_val(s: Seq<char>) -> int
    decreases s.len(),
{
    if s.len() == 0 {
        0
    } else {
        digits_val(s.drop_last()) * 10 + (s.last() as int - 48)
    }
}

/// Whether position `p` splits `s` as `"WIDTHxHEIGHT"`: a nonempty run of
/// digits, the letter `x`, and a nonempty run of digits, with both values
/// small enough for an `i32`.
pub open spec fn resolution_split_at(s: Seq<char>, p: int) -> bool {
    &&& 1 <= p < s.len() - 1
    &&& s[p] == 'x'
    &&& forall|k: int| 0 <= k < p ==> is_ascii_digit(#[trigger] s[k])
    &&& forall|k: int| p < k < s.len() ==> is_ascii_digit(#[trigger] s[k])
    &&& digits_val(s.subrange(0, p)) < 0x8000_0000
    &&& digits_val(s.subrange(p + 1, s.len() as int)) < 0x8000_0000
}

/// Whether `s` is a well-formed `"WIDTHxHEIGHT"` string. The split position
/// is unique, since a digit is never the letter `x`.
pub open spec fn valid_resolution(s: Seq<char>) -> bool {
    exists|p: int| resolution_split_at(s, p)
}

/// The resolution settings. Width and height mirror the currently selected
/// resolution string, or 0 when none was selected yet.
pub struct ResolutionService {
    width: i32,
    height: i32,
    available_resolutions: Vec<String>,
    current_resolution: String,
}

impl ResolutionService {
    /// Selected width in pixels, 0 when unset.
    pub closed spec fn spec_width(self) -> i32 {
        self.width
    }

    /// Selected height in pixels, 0 when unset.
    pub closed spec fn spec_height(self) -> i32 {
        self.height
    }

    /// Selected width in pixels, 0 when unset.
    pub fn width(&self) -> (r: i32)
        ensures
            r == self.spec_width(),
    {
        self.width
    }

    /// Selected height in pixels, 0 when unset.
    pub fn height(&self) -> (r: i32)
        ensures
            r == self.spec_height(),
    {
        self.height
    }

    /// The resolutions the device offers.
    pub closed spec fn spec_available(self) -> Seq<Seq<char>> {
        self.available_resolutions@.map_values(|s: String| s@)
    }

    /// The currently selected resolution string.
    pub closed spec fn spec_current(self) -> Seq<char> {
        self.current_resolution@
    }

    /// A service with no resolution selected.
    pub fn new() -> (s: Self)
        ensures
            s.spec_width() == 0,
            s.spec_height() == 0,
            s.spec_available().len() == 0,
            s.spec_current().len() == 0,
    {
        ResolutionService {
            width: 0,
            height: 0,
            available_resolutions: Vec::new(),
            current_resolution: String::new(),
        }
    }

    /// Record the resolutions the device offers.
    pub fn set_available_resolutions(&mut self, resolutions: &Vec<String>)
        ensures
            final(self).spec_available().len() == resolutions@.len(),
            forall|i: int|
                0 <= i < resolutions@.len() ==> final(self).spec_available()[i] == (
                #[trigger] resolutions@[i])@,
            final(self).spec_width() == old(self).spec_width(),
            final(self).spec_height() == old(self).spec_height(),
            final(self).spec_current() == old(self).spec_current(),
    {
        self.available_resolutions = clone_strings(resolutions);
    }

    /// Select a resolution from its `"WIDTHxHEIGHT"` string.
    ///
    /// Returns whether the string was well formed; a malformed string is
    /// rejected and changes nothing.
    pub fn set_resolution(&mut self, resolution: &String) -> (ok: bool)
        ensures
            ok == valid_resolution(resolution@),
            ok ==> final(self).spec_current() == resolution@ && forall|p: int| #[trigger]
                resolution_split_at(resolution@, p) ==> final(self).spec_width() == digits_val(
                resolution@.subrange(0, p),
            ) && final(self).spec_height() == digits_val(
                resolution@.subrange(p + 1, resolution@.len() as int),
            ),
            !ok ==> *final(self) == *old(self),
            final(self).spec_available() == old(self).spec_available(),
    {
        match parse_resolution(resolution.as_str()) {
            Some((w, h)) => {
                self.width = w;
                self.height = h;
                self.current_resolution = resolution.clone();
                true
            },
            None => false,
        }
    }

    /// The resolutions the device offers.
    pub fn get_available_resolutions(&self) -> (r: Vec<String>)
        ensures
            r@.len() == self.spec_available().len(),
            forall|i: int|
                0 <= i < r@.len() ==> (#[trigger] r@[i])@ == self.spec_available()[i],
    {
        clone_strings(&self.available_resolutions)
    }

    /// The currently selected resolution string.
    pub fn get_current_resolution(&self) -> (r: String)
        ensures
            r@ == self.spec_current(),
    {
        self.current_resolution.clone()
    }

    /// Forget the selected resolution and the offered list.
    pub fn clear(&mut self)
        ensures
            final(self).spec_width() == 0,
            final(self).spec_height() == 0,
            final(self).spec_available().len() == 0,
            final(self).spec_current().len() == 0,
    {
        self.width = 0;
        self.height = 0;
        self.available_resolutions = Vec::new();
        self.current_resolution = String::new();
    }
}

/// Copy a list of strings.
#[verifier::loop_isolation(false)]
fn clone_strings(v: &Vec<String>) -> (r: Vec<String>)
    ensures
        r@.len() == v@.len(),
        forall|i: int| 0 <= i < v@.len() ==> (#[trigger] r@[i])@ == v@[i]@,
{
    let mut r: Vec<String> = Vec::new();
    let mut i: usize = 0;
    while i < v.len()
        invariant
            i <= v@.len(),
            r@.len() == i,
            forall|k: int| 0 <= k < i ==> (#[trigger] r@[k])@ == v@[k]@,
        decreases v@.len() - i,
    {
        r.push(v[i].clone());
        i += 1;
    }
    r
}

/// Parse a `"WIDTHxHEIGHT"` string; `None` exactly when it is malformed.
#[verifier::loop_isolation(false)]
fn parse_resolution(s: &str) -> (r: Option<(i32, i32)>)
    ensures
        r is Some <==> valid_resolution(s@),
        forall|p: int| #[trigger]
            resolution_split_at(s@, p) ==> (r matches Some(wh) && wh.0 == digits_val(
                s@.subrange(0, p),
            ) && wh.1 == digits_val(s@.subrange(p + 1, s@.len() as int))),
{
    let n: usize = s.unicode_len();
    // Find the split: a run of digits, then the letter `x`.
    let mut p: usize = 0;
    loop
        invariant
            p <= n,
            n == s@.len(),
            forall|k: int| 0 <= k < p ==> is_ascii_digit(#[trigger] s@[k]) && s@[k] != 'x',
        decreases n - p,
    {
        if p == n {
            proof {
                lemma_no_valid_split(s@);
            }
            return None;
        }
        let c = s.get_char(p);
        if c == 'x' {
            break ;
        }
        let cv: u32 = c as u32;
        if cv < 48 || cv > 57 {
            proof {
                lemma_no_valid_split_bad_char(s@, p as int);
            }
            return None;
        }
        p += 1;
    }
    if p == 0 || p + 1 >= n {
        proof {
            lemma_no_valid_split_bounds(s@, p as int);
        }
        return None;
    }
    let w = match parse_digits(s, 0, p) {
        Some(v) => v,
        None => {
            proof {
                lemma_split_unique(s@, p as int);
            }
            return None;
        },
    };
    let h = match parse_digits(s, p + 1, n) {
        Some(v) => v,
        None => {
            proof {
                lemma_split_unique(s@, p as int);
            }
            return None;
        },
    };
    proof {
        lemma_split_unique(s@, p as int);
        assert(resolution_split_at(s@, p as int));
    }
    Some((w, h))
}

/// Parse the digit run `s[from..to]`; `None` if a character is not a digit
/// or the value does not fit an `i32`.
#[verifier::loop_isolation(false)]
fn parse_digits(s: &str, from: usize, to: usize) -> (r: Option<i32>)
    requires
        from < to <= s@.len(),
    ensures
        r is Some <==> (forall|k: int| from <= k < to ==> is_ascii_digit(#[trigger] s@[k]))
            && digits_val(s@.subrange(from as int, to as int)) < 0x8000_0000,
        r matches Some(v) ==> v == digits_val(s@.subrange(from as int, to as int)),
{
    let mut acc: u64 = 0;
    let mut i: usize = from;
    while i < to
        invariant
            from <= i <= to,
            forall|k: int| from <= k < i ==> is_ascii_digit(#[trigger] s@[k]),
            acc == digits_val(s@.subrange(from as int, i as int)),
            acc < 0x8000_0000,
        decreases to - i,
    {
        let c = s.get_char(i);
        let cv: u32 = c as u32;
        if cv < 48 || cv > 57 {
            return None;
        }
        let ghost pre = s@.subrange(from as int, i as int);
        proof {
            assert(s@.subrange(from as int, i + 1).drop_last() =~= pre);
            assert(s@.subrange(from as int, i + 1).last() == s@[i as int]);
        }
        acc = acc * 10 + ((cv - 48) as u64);
        i += 1;
        if acc >= 0x8000_0000 {
            proof {
                if forall|k: int| from <= k < to ==> is_ascii_digit(#[trigger] s@[k]) {
                    lemma_digits_val_grows(s@, from as int, i as int, to as int);
                }
            }
            return None;
        }
    }
    proof {
        assert(s@.subrange(from as int, to as int) =~= s@.subrange(from as int, i as int));
    }
    Some(acc as i32)
}

/// Digit values are nonnegative.
proof fn lemma_digits_val_nonneg(s: Seq<char>)
    requires
        forall|k: int| 0 <= k < s.len() ==> is_ascii_digit(#[trigger] s[k]),
    ensures
        digits_val(s) >= 0,
    decreases s.len(),
{
    if s.len() > 0 {
        assert(forall|k: int|
            0 <= k < s.drop_last().len() ==> is_ascii_digit(#[trigger] s.drop_last()[k]));
        lemma_digits_val_nonneg(s.drop_last());
    }
}

/// Extending a digit run only grows its value: once a prefix of the run is
/// too large for an `i32`, the whole run is.
proof fn lemma_digits_val_grows(s: Seq<char>, from: int, mid: int, to: int)
    requires
        0 <= from <= mid <= to <= s.len(),
        forall|k: int| from <= k < to ==> is_ascii_digit(#[trigger] s[k]),
    ensures
        digits_val(s.subrange(from, to)) >= digits_val(s.subrange(from, mid)),
    decreases to - mid,
{
    if mid < to {
        lemma_digits_val_grows(s, from, mid + 1, to);
        let pre = s.subrange(from, mid);
        let ext = s.subrange(from, mid + 1);
        assert(ext.drop_last() =~= pre);
        assert(forall|k: int| 0 <= k < pre.len() ==> is_ascii_digit(#[trigger] pre[k]));
        lemma_digits_val_nonneg(pre);
        assert(digits_val(ext) == digits_val(pre) * 10 + (s[mid] as int - 48));
        assert(digits_val(pre) * 10 >= digits_val(pre)) by (nonlinear_arith)
            requires
                digits_val(pre) >= 0,
        ;
    }
}

/// A string with no `x` in it has no valid split.
proof fn lemma_no_valid_split(s: Seq<char>)
    requires
        forall|k: int| 0 <= k < s.len() ==> #[trigger] s[k] != 'x',
    ensures
        !valid_resolution(s),
{
    assert forall|p: int| !resolution_split_at(s, p) by {
        if 0 <= p < s.len() {
            assert(s[p] != 'x');
        }
    }
}

/// A non-digit, non-`x` character before the first `x` rules out every split.
proof fn lemma_no_valid_split_bad_char(s: Seq<char>, bad: int)
    requires
        0 <= bad < s.len(),
        !is_ascii_digit(s[bad]),
        s[bad] != 'x',
        forall|k: int| 0 <= k < bad ==> #[trigger] s[k] != 'x',
    ensures
        !valid_resolution(s),
{
    assert forall|p: int| !resolution_split_at(s, p) by {
        if resolution_split_at(s, p) {
            if p < bad {
                assert(is_ascii_digit(s[bad]) || s[bad] == 'x' || bad <= p);
            } else if p == bad {
                assert(s[p] == 'x');
            } else {
                assert(is_ascii_digit(s[bad]));
            }
        }
    }
}

/// An `x` first thing or last thing leaves one side empty: no valid split.
proof fn lemma_no_valid_split_bounds(s: Seq<char>, p: int)
    requires
        0 <= p <= s.len(),
        p < s.len() ==> s[p] == 'x',
        forall|k: int| 0 <= k < p ==> is_ascii_digit(#[trigger] s[k]) && s[k] != 'x',
        p == 0 || p + 1 >= s.len(),
    ensures
        !valid_resolution(s),
{
    assert forall|q: int| !resolution_split_at(s, q) by {
        if resolution_split_at(s, q) {
            if q < p {
                assert(s[q] != 'x');
            } else if q > p {
                assert(p < s.len());
                assert(is_ascii_digit(s[p]));
            }
        }
    }
}

/// The split at the first `x` is the only candidate: a valid split elsewhere
/// is impossible.
proof fn lemma_split_unique(s: Seq<char>, p: int)
    requires
        1 <= p < s.len() - 1,
        s[p] == 'x',
        forall|k: int| 0 <= k < p ==> is_ascii_digit(#[trigger] s[k]) && s[k] != 'x',
    ensures
        forall|q: int| #[trigger] resolution_split_at(s, q) ==> q == p,
{
    assert forall|q: int| #[trigger] resolution_split_at(s, q) implies q == p by {
        if q < p {
            assert(s[q] != 'x');
        } else if q > p {
            assert(is_ascii_digit(s[p]));
        }
    }
}

} // verus!
