use vstd::prelude::*;
use crate::css::{DeclV, Declaration, Rule, RuleV, Selector, SelectorV};
use crate::node::DisplayOuter;

verus! {

//
// The stylesheet grammar, stated over the raw UTF-8 bytes of the source:
//
//   sheet := rule*                      a rule without braces ends the sheet
//   rule  := selector '{' decl* '}'     a malformed selector drops the rule
//   decl  := name ':' value             split on ';'; malformed ones drop
//
// Selectors are the four simple forms `*`, `tag`, `.class`, `#id`;
// declared properties are `width`/`height` (integer or fractional pixel
// lengths), `display` (`block`/`inline`/`none`), `color` (any non-empty
// value), and `order` (an integer).  Parsing never fails: what does not
// match the grammar is skipped, per rule and per declaration.
//
pub open spec fn is_space(b: u8) -> bool {
    b == 32 || b == 9 || b == 10 || b == 12 || b == 13
}

pub open spec fn is_digit(b: u8) -> bool {
    48 <= b <= 57
}

pub open spec fn is_ident_byte(b: u8) -> bool {
    (97 <= b <= 122) || (65 <= b <= 90) || is_digit(b) || b == 45 || b == 95
}

/// The first position of `t` in `s` at or after `k`, up to `hi`.
pub open spec fn find_in(s: Seq<u8>, k: int, hi: int, t: u8) -> Option<int>
    decreases hi - k,
        when 0 <= k
{
    if k >= hi || k >= s.len() {
        None
    } else if s[k] == t {
        Some(k)
    } else {
        find_in(s, k + 1, hi, t)
    }
}

pub proof fn lemma_find_in_range(s: Seq<u8>, k: int, hi: int, t: u8)
    requires
        0 <= k,
    ensures
        match find_in(s, k, hi, t) {
            Some(i) => k <= i < hi && i < s.len() && s[i] == t,
            None => true,
        },
    decreases hi - k,
{
    if k < hi && k < s.len() && s[k] != t {
        lemma_find_in_range(s, k + 1, hi, t);
    }
}

/// The first non-space position in `[lo, hi)`, or `hi`.
pub open spec fn trim_lo(s: Seq<u8>, lo: int, hi: int) -> int
    decreases hi - lo,
        when 0 <= lo
{
    if lo >= hi || lo >= s.len() {
        lo
    } else if is_space(s[lo]) {
        trim_lo(s, lo + 1, hi)
    } else {
        lo
    }
}

/// One past the last non-space position in `[lo, hi)`, or `lo`.
pub open spec fn trim_hi(s: Seq<u8>, lo: int, hi: int) -> int
    decreases hi - lo,
{
    if hi <= lo || hi > s.len() {
        hi
    } else if is_space(s[hi - 1]) {
        trim_hi(s, lo, hi - 1)
    } else {
        hi
    }
}

pub proof fn lemma_trim_range(s: Seq<u8>, lo: int, hi: int)
    requires
        0 <= lo <= hi <= s.len(),
    ensures
        lo <= trim_lo(s, lo, hi) <= hi,
        lo <= trim_hi(s, lo, hi) <= hi,
    decreases hi - lo,
{
    if lo < hi {
        if is_space(s[lo]) {
            lemma_trim_range(s, lo + 1, hi);
            assert(trim_hi(s, lo, hi) == if is_space(s[hi - 1]) {
                trim_hi(s, lo, hi - 1)
            } else {
                hi
            });
            if is_space(s[hi - 1]) {
                lemma_trim_range(s, lo, hi - 1);
            }
        } else if is_space(s[hi - 1]) {
            lemma_trim_range(s, lo, hi - 1);
        }
    }
}

pub open spec fn all_ident(s: Seq<u8>, lo: int, hi: int) -> bool {
    forall|i: int| lo <= i < hi ==> is_ident_byte(#[trigger] s[i])
}

pub open spec fn all_digits(s: Seq<u8>, lo: int, hi: int) -> bool {
    forall|i: int| lo <= i < hi ==> is_digit(#[trigger] s[i])
}

/// The value of the digit run `[lo, hi)` read as a decimal number.
pub open spec fn digits_val(s: Seq<u8>, lo: int, hi: int) -> int
    decreases hi - lo,
{
    if hi <= lo || hi > s.len() {
        0
    } else {
        digits_val(s, lo, hi - 1) * 10 + (s[hi - 1] - 48)
    }
}

/// A pixel length `N[.F]px` in `[lo, hi)`, as hundredths of a pixel; at
/// most eight whole digits and two fractional digits.
pub open spec fn parse_px(s: Seq<u8>, lo: int, hi: int) -> Option<i64> {
    if hi - lo < 3 || !(0 <= lo && hi <= s.len()) {
        None
    } else if s[hi - 2] == 112 && s[hi - 1] == 120 {
        parse_number_h(s, lo, hi - 2)
    } else {
        None
    }
}

/// A decimal number `N[.F]` in `[lo, hi)`, as hundredths.
pub open spec fn parse_number_h(s: Seq<u8>, lo: int, hi: int) -> Option<i64> {
    match find_in(s, lo, hi, 46) {
        None => if 1 <= hi - lo <= 8 && all_digits(s, lo, hi) {
            Some((digits_val(s, lo, hi) * 100) as i64)
        } else {
            None
        },
        Some(d) => if 1 <= d - lo <= 8 && all_digits(s, lo, d) && 1 <= hi - (d + 1) <= 2
            && all_digits(s, d + 1, hi) {
            let frac = digits_val(s, d + 1, hi);
            let frac_h = if hi - (d + 1) == 1 {
                frac * 10
            } else {
                frac
            };
            Some((digits_val(s, lo, d) * 100 + frac_h) as i64)
        } else {
            None
        },
    }
}

/// An integer `[-]N` in `[lo, hi)`, at most eight digits.
pub open spec fn parse_int(s: Seq<u8>, lo: int, hi: int) -> Option<i64> {
    if !(0 <= lo && hi <= s.len()) {
        None
    } else if lo < hi && s[lo] == 45 {
        if 1 <= hi - (lo + 1) <= 8 && all_digits(s, lo + 1, hi) {
            Some((-digits_val(s, lo + 1, hi)) as i64)
        } else {
            None
        }
    } else if 1 <= hi - lo <= 8 && all_digits(s, lo, hi) {
        Some(digits_val(s, lo, hi) as i64)
    } else {
        None
    }
}

pub open spec fn kw_width() -> Seq<u8> {
    seq![119u8, 105u8, 100u8, 116u8, 104u8]
}

pub open spec fn kw_height() -> Seq<u8> {
    seq![104u8, 101u8, 105u8, 103u8, 104u8, 116u8]
}

pub open spec fn kw_display() -> Seq<u8> {
    seq![100u8, 105u8, 115u8, 112u8, 108u8, 97u8, 121u8]
}

pub open spec fn kw_color() -> Seq<u8> {
    seq![99u8, 111u8, 108u8, 111u8, 114u8]
}

pub open spec fn kw_order() -> Seq<u8> {
    seq![111u8, 114u8, 100u8, 101u8, 114u8]
}

pub open spec fn kw_block() -> Seq<u8> {
    seq![98u8, 108u8, 111u8, 99u8, 107u8]
}

pub open spec fn kw_inline() -> Seq<u8> {
    seq![105u8, 110u8, 108u8, 105u8, 110u8, 101u8]
}

pub open spec fn kw_none() -> Seq<u8> {
    seq![110u8, 111u8, 110u8, 101u8]
}

/// One declaration `name ':' value` in `[lo, hi)`, or nothing when it
/// does not fit the supported grammar.
pub open spec fn classify_decl(s: Seq<u8>, lo: int, hi: int) -> Option<DeclV>
    recommends
        0 <= lo <= hi <= s.len(),
{
    match find_in(s, lo, hi, 58) {
        None => None,
        Some(c) => {
            let nlo = trim_lo(s, lo, c);
            let nhi = trim_hi(s, nlo, c);
            let vlo = trim_lo(s, c + 1, hi);
            let vhi = trim_hi(s, vlo, hi);
            let name = s.subrange(nlo, nhi);
            if name == kw_width() {
                match parse_px(s, vlo, vhi) {
                    Some(w) => Some(DeclV::Width(w)),
                    None => None,
                }
            } else if name == kw_height() {
                match parse_px(s, vlo, vhi) {
                    Some(h) => Some(DeclV::Height(h)),
                    None => None,
                }
            } else if name == kw_display() {
                let value = s.subrange(vlo, vhi);
                if value == kw_block() {
                    Some(DeclV::Display(DisplayOuter::Block))
                } else if value == kw_inline() {
                    Some(DeclV::Display(DisplayOuter::Inline))
                } else if value == kw_none() {
                    Some(DeclV::Display(DisplayOuter::NoDisplay))
                } else {
                    None
                }
            } else if name == kw_color() {
                if vlo < vhi {
                    Some(DeclV::Color(s.subrange(vlo, vhi)))
                } else {
                    None
                }
            } else if name == kw_order() {
                match parse_int(s, vlo, vhi) {
                    Some(o) => Some(DeclV::Order(o)),
                    None => None,
                }
            } else {
                None
            }
        },
    }
}

/// The declarations of a rule body `[lo, hi)`, split on ';', with the
/// malformed ones dropped.
pub open spec fn parse_decls_from(s: Seq<u8>, lo: int, hi: int) -> Seq<DeclV>
    decreases hi - lo,
        when 0 <= lo
    via parse_decls_from_decreases
{
    if lo >= hi {
        Seq::empty()
    } else {
        let seg_end = match find_in(s, lo, hi, 59) {
            Some(i) => i,
            None => hi,
        };
        let here = classify_decl(s, lo, seg_end);
        let rest = match find_in(s, lo, hi, 59) {
            Some(i) => parse_decls_from(s, i + 1, hi),
            None => Seq::empty(),
        };
        match here {
            Some(d) => seq![d] + rest,
            None => rest,
        }
    }
}

#[via_fn]
proof fn parse_decls_from_decreases(s: Seq<u8>, lo: int, hi: int) {
    lemma_find_in_range(s, lo, hi, 59);
}

/// A simple selector in `[lo, hi)`, or nothing when malformed.
pub open spec fn classify_selector(s: Seq<u8>, lo: int, hi: int) -> Option<SelectorV>
    recommends
        0 <= lo <= hi <= s.len(),
{
    if lo >= hi {
        None
    } else if s[lo] == 42 && hi == lo + 1 {
        Some(SelectorV::Universal)
    } else if s[lo] == 35 && lo + 1 < hi && all_ident(s, lo + 1, hi) {
        Some(SelectorV::Id(s.subrange(lo + 1, hi)))
    } else if s[lo] == 46 && lo + 1 < hi && all_ident(s, lo + 1, hi) {
        Some(SelectorV::Class(s.subrange(lo + 1, hi)))
    } else if all_ident(s, lo, hi) {
        Some(SelectorV::Tag(s.subrange(lo, hi)))
    } else {
        None
    }
}

/// The rules of a stylesheet from position `k` on.  A malformed selector
/// drops its rule alone; an unclosed rule ends the sheet.
pub open spec fn parse_rules_from(s: Seq<u8>, k: int) -> Seq<RuleV>
    decreases s.len() - k,
        when 0 <= k
    via parse_rules_from_decreases
{
    if k >= s.len() {
        Seq::empty()
    } else {
        match find_in(s, k, s.len() as int, 123) {
            None => Seq::empty(),
            Some(ob) => match find_in(s, ob + 1, s.len() as int, 125) {
                None => Seq::empty(),
                Some(cb) => {
                    let rest = parse_rules_from(s, cb + 1);
                    let slo = trim_lo(s, k, ob);
                    let shi = trim_hi(s, slo, ob);
                    match classify_selector(s, slo, shi) {
                        Some(sel) => seq![
                            RuleV { selector: sel, declarations: parse_decls_from(s, ob + 1, cb) },
                        ] + rest,
                        None => rest,
                    }
                },
            },
        }
    }
}

#[via_fn]
proof fn parse_rules_from_decreases(s: Seq<u8>, k: int) {
    lemma_find_in_range(s, k, s.len() as int, 123);
    match find_in(s, k, s.len() as int, 123) {
        Some(ob) => {
            lemma_find_in_range(s, ob + 1, s.len() as int, 125);
        },
        None => {},
    }
}

/// What a whole stylesheet source parses to.
pub open spec fn spec_parse_rules(s: Seq<u8>) -> Seq<RuleV> {
    parse_rules_from(s, 0)
}


/// Powers of ten.
pub open spec fn pow10(n: nat) -> int
    decreases n,
{
    if n == 0 {
        1
    } else {
        10 * pow10((n - 1) as nat)
    }
}

proof fn lemma_pow10_pos(n: nat)
    ensures
        pow10(n) >= 1,
    decreases n,
{
    if n > 0 {
        lemma_pow10_pos((n - 1) as nat);
    }
}

proof fn lemma_pow10_mono(a: nat, b: nat)
    requires
        a <= b,
    ensures
        1 <= pow10(a) <= pow10(b),
    decreases b,
{
    lemma_pow10_pos(a);
    if a < b {
        lemma_pow10_mono(a, (b - 1) as nat);
        lemma_pow10_pos((b - 1) as nat);
        assert(pow10(b) == 10 * pow10((b - 1) as nat));
    }
}

/// The value of a digit run is below ten to the number of digits.
pub proof fn lemma_digits_bound_pow(s: Seq<u8>, lo: int, hi: int)
    requires
        0 <= lo <= hi <= s.len(),
        all_digits(s, lo, hi),
    ensures
        0 <= digits_val(s, lo, hi) <= pow10((hi - lo) as nat) - 1,
    decreases hi - lo,
{
    if lo < hi {
        lemma_digits_bound_pow(s, lo, hi - 1);
        assert(is_digit(s[hi - 1]));
        assert(pow10((hi - lo) as nat) == 10 * pow10((hi - lo - 1) as nat));
    }
}

/// A digit run of at most eight digits stays below `10^8`.
pub proof fn lemma_digits_bound(s: Seq<u8>, lo: int, hi: int)
    requires
        0 <= lo <= hi <= s.len(),
        hi - lo <= 8,
        all_digits(s, lo, hi),
    ensures
        0 <= digits_val(s, lo, hi) < 100_000_000,
{
    lemma_digits_bound_pow(s, lo, hi);
    lemma_pow10_mono((hi - lo) as nat, 8);
    assert(pow10(8) == 100_000_000) by {
        assert(pow10(0) == 1);
        assert(pow10(1) == 10);
        assert(pow10(2) == 100);
        assert(pow10(3) == 1000);
        assert(pow10(4) == 10000);
        assert(pow10(5) == 100000);
        assert(pow10(6) == 1000000);
        assert(pow10(7) == 10000000);
    }
}

/// A digit run of at most two digits stays below one hundred.
pub proof fn lemma_digits_bound_two(s: Seq<u8>, lo: int, hi: int)
    requires
        0 <= lo <= hi <= s.len(),
        hi - lo <= 2,
        all_digits(s, lo, hi),
    ensures
        0 <= digits_val(s, lo, hi) < 100,
{
    lemma_digits_bound_pow(s, lo, hi);
    lemma_pow10_mono((hi - lo) as nat, 2);
    assert(pow10(2) == 100) by {
        assert(pow10(0) == 1);
        assert(pow10(1) == 10);
    }
}

fn is_space_b(b: u8) -> (r: bool)
    ensures
        r == is_space(b),
{
    b == 32 || b == 9 || b == 10 || b == 12 || b == 13
}

fn is_digit_b(b: u8) -> (r: bool)
    ensures
        r == is_digit(b),
{
    48 <= b && b <= 57
}

fn is_ident_b(b: u8) -> (r: bool)
    ensures
        r == is_ident_byte(b),
{
    (97 <= b && b <= 122) || (65 <= b && b <= 90) || (48 <= b && b <= 57) || b == 45 || b == 95
}

fn find_byte(s: &[u8], k: usize, hi: usize, t: u8) -> (r: Option<usize>)
    requires
        k <= hi <= s@.len(),
    ensures
        match r {
            Some(i) => find_in(s@, k as int, hi as int, t) == Some(i as int) && k <= i < hi,
            None => find_in(s@, k as int, hi as int, t) is None,
        },
{
    let mut i = k;
    while i < hi
        invariant
            k <= i <= hi <= s@.len(),
            find_in(s@, k as int, hi as int, t) == find_in(s@, i as int, hi as int, t),
        decreases hi - i,
    {
        if s[i] == t {
            return Some(i);
        }
        i += 1;
    }
    None
}

fn trim_lo_exec(s: &[u8], lo: usize, hi: usize) -> (r: usize)
    requires
        lo <= hi <= s@.len(),
    ensures
        r == trim_lo(s@, lo as int, hi as int),
        lo <= r <= hi,
{
    let mut i = lo;
    while i < hi
        invariant
            lo <= i <= hi <= s@.len(),
            trim_lo(s@, lo as int, hi as int) == trim_lo(s@, i as int, hi as int),
        decreases hi - i,
    {
        if !is_space_b(s[i]) {
            return i;
        }
        i += 1;
    }
    i
}

fn trim_hi_exec(s: &[u8], lo: usize, hi: usize) -> (r: usize)
    requires
        lo <= hi <= s@.len(),
    ensures
        r == trim_hi(s@, lo as int, hi as int),
        lo <= r <= hi,
{
    let mut i = hi;
    while i > lo
        invariant
            lo <= i <= hi <= s@.len(),
            trim_hi(s@, lo as int, hi as int) == trim_hi(s@, lo as int, i as int),
        decreases i,
    {
        if !is_space_b(s[i - 1]) {
            return i;
        }
        i -= 1;
    }
    i
}

fn all_ident_exec(s: &[u8], lo: usize, hi: usize) -> (r: bool)
    requires
        lo <= hi <= s@.len(),
    ensures
        r == all_ident(s@, lo as int, hi as int),
{
    let mut i = lo;
    while i < hi
        invariant
            lo <= i <= hi <= s@.len(),
            forall|j: int| lo <= j < i ==> is_ident_byte(#[trigger] s@[j]),
        decreases hi - i,
    {
        if !is_ident_b(s[i]) {
            return false;
        }
        i += 1;
    }
    true
}

fn all_digits_exec(s: &[u8], lo: usize, hi: usize) -> (r: bool)
    requires
        lo <= hi <= s@.len(),
    ensures
        r == all_digits(s@, lo as int, hi as int),
{
    let mut i = lo;
    while i < hi
        invariant
            lo <= i <= hi <= s@.len(),
            forall|j: int| lo <= j < i ==> is_digit(#[trigger] s@[j]),
        decreases hi - i,
    {
        if !is_digit_b(s[i]) {
            return false;
        }
        i += 1;
    }
    true
}

/// Copy the byte range `[lo, hi)` into an owned vector.
fn copy_range(s: &[u8], lo: usize, hi: usize) -> (r: Vec<u8>)
    requires
        lo <= hi <= s@.len(),
    ensures
        r@ == s@.subrange(lo as int, hi as int),
{
    let mut r: Vec<u8> = Vec::new();
    let mut i = lo;
    while i < hi
        invariant
            lo <= i <= hi <= s@.len(),
            r@ == s@.subrange(lo as int, i as int),
        decreases hi - i,
    {
        r.push(s[i]);
        proof {
            assert(r@ =~= s@.subrange(lo as int, i + 1int));
        }
        i += 1;
    }
    r
}

fn range_matches(s: &[u8], lo: usize, hi: usize, kw: &[u8]) -> (r: bool)
    requires
        lo <= hi <= s@.len(),
    ensures
        r == (s@.subrange(lo as int, hi as int) == kw@),
{
    if hi - lo != kw.len() {
        proof {
            assert(s@.subrange(lo as int, hi as int).len() != kw@.len());
        }
        return false;
    }
    let n = kw.len();
    let mut i: usize = 0;
    while i < n
        invariant
            lo + n == hi,
            hi <= s@.len(),
            n == kw@.len(),
            0 <= i <= n,
            forall|j: int| 0 <= j < i ==> s@[lo + j] == kw@[j],
        decreases n - i,
    {
        if s[lo + i] != kw[i] {
            proof {
                assert(s@.subrange(lo as int, hi as int)[i as int] == s@[lo + i]);
            }
            return false;
        }
        i += 1;
    }
    proof {
        assert(s@.subrange(lo as int, hi as int) =~= kw@);
    }
    true
}

fn kw_width_v() -> (r: Vec<u8>)
    ensures
        r@ == kw_width(),
{
    let mut r: Vec<u8> = Vec::new();
    r.push(119);
    r.push(105);
    r.push(100);
    r.push(116);
    r.push(104);
    proof {
        assert(r@ =~= kw_width());
    }
    r
}

fn kw_height_v() -> (r: Vec<u8>)
    ensures
        r@ == kw_height(),
{
    let mut r: Vec<u8> = Vec::new();
    r.push(104);
    r.push(101);
    r.push(105);
    r.push(103);
    r.push(104);
    r.push(116);
    proof {
        assert(r@ =~= kw_height());
    }
    r
}

fn kw_display_v() -> (r: Vec<u8>)
    ensures
        r@ == kw_display(),
{
    let mut r: Vec<u8> = Vec::new();
    r.push(100);
    r.push(105);
    r.push(115);
    r.push(112);
    r.push(108);
    r.push(97);
    r.push(121);
    proof {
        assert(r@ =~= kw_display());
    }
    r
}

fn kw_color_v() -> (r: Vec<u8>)
    ensures
        r@ == kw_color(),
{
    let mut r: Vec<u8> = Vec::new();
    r.push(99);
    r.push(111);
    r.push(108);
    r.push(111);
    r.push(114);
    proof {
        assert(r@ =~= kw_color());
    }
    r
}

fn kw_order_v() -> (r: Vec<u8>)
    ensures
        r@ == kw_order(),
{
    let mut r: Vec<u8> = Vec::new();
    r.push(111);
    r.push(114);
    r.push(100);
    r.push(101);
    r.push(114);
    proof {
        assert(r@ =~= kw_order());
    }
    r
}

fn kw_block_v() -> (r: Vec<u8>)
    ensures
        r@ == kw_block(),
{
    let mut r: Vec<u8> = Vec::new();
    r.push(98);
    r.push(108);
    r.push(111);
    r.push(99);
    r.push(107);
    proof {
        assert(r@ =~= kw_block());
    }
    r
}

fn kw_inline_v() -> (r: Vec<u8>)
    ensures
        r@ == kw_inline(),
{
    let mut r: Vec<u8> = Vec::new();
    r.push(105);
    r.push(110);
    r.push(108);
    r.push(105);
    r.push(110);
    r.push(101);
    proof {
        assert(r@ =~= kw_inline());
    }
    r
}

fn kw_none_v() -> (r: Vec<u8>)
    ensures
        r@ == kw_none(),
{
    let mut r: Vec<u8> = Vec::new();
    r.push(110);
    r.push(111);
    r.push(110);
    r.push(101);
    proof {
        assert(r@ =~= kw_none());
    }
    r
}

fn digits_val_exec(s: &[u8], lo: usize, hi: usize) -> (r: i64)
    requires
        lo <= hi <= s@.len(),
        hi - lo <= 8,
        all_digits(s@, lo as int, hi as int),
    ensures
        r == digits_val(s@, lo as int, hi as int),
        0 <= r < 100_000_000,
{
    proof {
        lemma_digits_bound(s@, lo as int, hi as int);
    }
    let mut acc: i64 = 0;
    let mut i = lo;
    while i < hi
        invariant
            lo <= i <= hi <= s@.len(),
            hi - lo <= 8,
            all_digits(s@, lo as int, hi as int),
            acc == digits_val(s@, lo as int, i as int),
            0 <= acc < 100_000_000,
        decreases hi - i,
    {
        proof {
            lemma_digits_bound(s@, lo as int, i + 1int);
        }
        acc = acc * 10 + ((s[i] - 48) as i64);
        i += 1;
    }
    acc
}

fn parse_number_h_exec(s: &[u8], lo: usize, hi: usize) -> (r: Option<i64>)
    requires
        lo <= hi <= s@.len(),
    ensures
        r == parse_number_h(s@, lo as int, hi as int),
        match r {
            Some(v) => 0 <= v < 10_000_000_000,
            None => true,
        },
{
    match find_byte(s, lo, hi, 46) {
        None => {
            if 1 <= hi - lo && hi - lo <= 8 && all_digits_exec(s, lo, hi) {
                Some(digits_val_exec(s, lo, hi) * 100)
            } else {
                None
            }
        },
        Some(d) => {
            if 1 <= d - lo && d - lo <= 8 && all_digits_exec(s, lo, d) && d + 1 <= hi && 1 <= hi
                - (d + 1) && hi - (d + 1) <= 2 && all_digits_exec(s, d + 1, hi) {
                let whole = digits_val_exec(s, lo, d);
                let frac = digits_val_exec(s, d + 1, hi);
                proof {
                    lemma_digits_bound_two(s@, d + 1int, hi as int);
                    if hi - (d + 1) == 1 {
                        lemma_digits_bound_pow(s@, d + 1int, hi as int);
                        assert(pow10(1) == 10) by {
                            assert(pow10(0) == 1);
                        }
                    }
                }
                let frac_h: i64 = if hi - (d + 1) == 1 {
                    frac * 10
                } else {
                    frac
                };
                Some(whole * 100 + frac_h)
            } else {
                None
            }
        },
    }
}

fn parse_px_exec(s: &[u8], lo: usize, hi: usize) -> (r: Option<i64>)
    requires
        lo <= hi <= s@.len(),
    ensures
        r == parse_px(s@, lo as int, hi as int),
        match r {
            Some(v) => 0 <= v < 10_000_000_000,
            None => true,
        },
{
    if hi - lo < 3 {
        return None;
    }
    if s[hi - 2] == 112 && s[hi - 1] == 120 {
        parse_number_h_exec(s, lo, hi - 2)
    } else {
        None
    }
}

fn parse_int_exec(s: &[u8], lo: usize, hi: usize) -> (r: Option<i64>)
    requires
        lo <= hi <= s@.len(),
    ensures
        r == parse_int(s@, lo as int, hi as int),
        match r {
            Some(v) => -100_000_000 < v < 100_000_000,
            None => true,
        },
{
    if lo < hi && s[lo] == 45 {
        if 1 <= hi - (lo + 1) && hi - (lo + 1) <= 8 && all_digits_exec(s, lo + 1, hi) {
            Some(-digits_val_exec(s, lo + 1, hi))
        } else {
            None
        }
    } else if 1 <= hi - lo && hi - lo <= 8 && all_digits_exec(s, lo, hi) {
        Some(digits_val_exec(s, lo, hi))
    } else {
        None
    }
}

fn classify_selector_exec(s: &[u8], lo: usize, hi: usize) -> (r: Option<Selector>)
    requires
        lo <= hi <= s@.len(),
    ensures
        match r {
            Some(sel) => classify_selector(s@, lo as int, hi as int) == Some(sel@),
            None => classify_selector(s@, lo as int, hi as int) is None,
        },
{
    if lo >= hi {
        None
    } else if s[lo] == 42 && hi == lo + 1 {
        Some(Selector::Universal)
    } else if s[lo] == 35 && lo + 1 < hi && all_ident_exec(s, lo + 1, hi) {
        Some(Selector::Id(copy_range(s, lo + 1, hi)))
    } else if s[lo] == 46 && lo + 1 < hi && all_ident_exec(s, lo + 1, hi) {
        Some(Selector::Class(copy_range(s, lo + 1, hi)))
    } else if all_ident_exec(s, lo, hi) {
        Some(Selector::Tag(copy_range(s, lo, hi)))
    } else {
        None
    }
}

fn classify_decl_exec(s: &[u8], lo: usize, hi: usize) -> (r: Option<Declaration>)
    requires
        lo <= hi <= s@.len(),
    ensures
        match r {
            Some(d) => classify_decl(s@, lo as int, hi as int) == Some(d@) && d@.wf(),
            None => classify_decl(s@, lo as int, hi as int) is None,
        },
{
    match find_byte(s, lo, hi, 58) {
        None => None,
        Some(c) => {
            let nlo = trim_lo_exec(s, lo, c);
            let nhi = trim_hi_exec(s, nlo, c);
            let vlo = trim_lo_exec(s, c + 1, hi);
            let vhi = trim_hi_exec(s, vlo, hi);
            let kw = kw_width_v();
            if range_matches(s, nlo, nhi, kw.as_slice()) {
                return match parse_px_exec(s, vlo, vhi) {
                    Some(w) => Some(Declaration::Width(w)),
                    None => None,
                };
            }
            let kw = kw_height_v();
            if range_matches(s, nlo, nhi, kw.as_slice()) {
                return match parse_px_exec(s, vlo, vhi) {
                    Some(h) => Some(Declaration::Height(h)),
                    None => None,
                };
            }
            let kw = kw_display_v();
            if range_matches(s, nlo, nhi, kw.as_slice()) {
                let kb = kw_block_v();
                if range_matches(s, vlo, vhi, kb.as_slice()) {
                    return Some(Declaration::Display(DisplayOuter::Block));
                }
                let ki = kw_inline_v();
                if range_matches(s, vlo, vhi, ki.as_slice()) {
                    return Some(Declaration::Display(DisplayOuter::Inline));
                }
                let kn = kw_none_v();
                if range_matches(s, vlo, vhi, kn.as_slice()) {
                    return Some(Declaration::Display(DisplayOuter::NoDisplay));
                }
                return None;
            }
            let kw = kw_color_v();
            if range_matches(s, nlo, nhi, kw.as_slice()) {
                if vlo < vhi {
                    return Some(Declaration::Color(copy_range(s, vlo, vhi)));
                }
                return None;
            }
            let kw = kw_order_v();
            if range_matches(s, nlo, nhi, kw.as_slice()) {
                return match parse_int_exec(s, vlo, vhi) {
                    Some(o) => Some(Declaration::Order(o)),
                    None => None,
                };
            }
            None
        },
    }
}

pub fn parse_decls_exec(s: &[u8], lo: usize, hi: usize) -> (r: Vec<Declaration>)
    requires
        lo <= hi <= s@.len(),
    ensures
        crate::css::decls_view(r@) == parse_decls_from(s@, lo as int, hi as int),
        forall|i: int| 0 <= i < r@.len() ==> (#[trigger] r@[i])@.wf(),
{
    let mut out: Vec<Declaration> = Vec::new();
    let mut k = lo;
    while k < hi
        invariant
            lo <= k <= hi <= s@.len(),
            forall|i: int| 0 <= i < out@.len() ==> (#[trigger] out@[i])@.wf(),
            crate::css::decls_view(out@) + parse_decls_from(s@, k as int, hi as int)
                == parse_decls_from(s@, lo as int, hi as int),
        decreases hi - k,
    {
        let seg_end = match find_byte(s, k, hi, 59) {
            Some(i) => i,
            None => hi,
        };
        let ghost pre = out@;
        proof {
            lemma_find_in_range(s@, k as int, hi as int, 59);
        }
        let d = classify_decl_exec(s, k, seg_end);
        match d {
            Some(dd) => {
                let ghost dv = dd@;
                out.push(dd);
                proof {
                    assert(crate::css::decls_view(out@) =~= crate::css::decls_view(pre).push(dv));
                    assert(parse_decls_from(s@, k as int, hi as int) == seq![dv] + (match find_in(
                        s@,
                        k as int,
                        hi as int,
                        59,
                    ) {
                        Some(i) => parse_decls_from(s@, i + 1, hi as int),
                        None => Seq::<DeclV>::empty(),
                    }));
                }
            },
            None => {
                proof {
                    assert(parse_decls_from(s@, k as int, hi as int) == (match find_in(
                        s@,
                        k as int,
                        hi as int,
                        59,
                    ) {
                        Some(i) => parse_decls_from(s@, i + 1, hi as int),
                        None => Seq::<DeclV>::empty(),
                    }));
                }
            },
        }
        match find_byte(s, k, hi, 59) {
            Some(i) => {
                k = i + 1;
            },
            None => {
                k = hi;
            },
        }
        proof {
            assert(crate::css::decls_view(out@) + parse_decls_from(s@, k as int, hi as int)
                =~= parse_decls_from(s@, lo as int, hi as int));
        }
    }
    proof {
        assert(parse_decls_from(s@, k as int, hi as int) == Seq::<DeclV>::empty());
        assert(crate::css::decls_view(out@) =~= parse_decls_from(s@, lo as int, hi as int));
    }
    out
}

/// Parse a whole stylesheet source into its rules.  Parsing is total:
/// malformed rules and declarations are dropped one by one and the rest
/// of the sheet is kept.
pub fn parse_stylesheet(s: &[u8]) -> (r: Vec<Rule>)
    ensures
        r@.map_values(|rr: Rule| rr@) == spec_parse_rules(s@),
        forall|i: int| 0 <= i < r@.len() ==> (#[trigger] r@[i])@.wf(),
{
    let n = s.len();
    let mut out: Vec<Rule> = Vec::new();
    let mut k: usize = 0;
    while k < n
        invariant
            0 <= k <= n,
            n == s@.len(),
            forall|i: int| 0 <= i < out@.len() ==> (#[trigger] out@[i])@.wf(),
            out@.map_values(|rr: Rule| rr@) + parse_rules_from(s@, k as int) == spec_parse_rules(
                s@,
            ),
        decreases n - k,
    {
        let ob = match find_byte(s, k, n, 123) {
            Some(i) => i,
            None => {
                proof {
                    assert(parse_rules_from(s@, k as int) == Seq::<RuleV>::empty());
                }
                k = n;
                continue ;
            },
        };
        let cb = match find_byte(s, ob + 1, n, 125) {
            Some(i) => i,
            None => {
                proof {
                    assert(parse_rules_from(s@, k as int) == Seq::<RuleV>::empty());
                }
                k = n;
                continue ;
            },
        };
        let slo = trim_lo_exec(s, k, ob);
        let shi = trim_hi_exec(s, slo, ob);
        let ghost pre = out@;
        match classify_selector_exec(s, slo, shi) {
            Some(sel) => {
                let decls = parse_decls_exec(s, ob + 1, cb);
                let ghost rv = RuleV {
                    selector: sel@,
                    declarations: parse_decls_from(s@, ob + 1int, cb as int),
                };
                let rule = Rule { selector: sel, declarations: decls };
                proof {
                    assert(rule@ == rv);
                }
                out.push(rule);
                proof {
                    assert(out@.map_values(|rr: Rule| rr@) =~= pre.map_values(|rr: Rule| rr@).push(
                        rv,
                    ));
                    assert(parse_rules_from(s@, k as int) == seq![rv] + parse_rules_from(
                        s@,
                        cb + 1int,
                    ));
                }
            },
            None => {
                proof {
                    assert(parse_rules_from(s@, k as int) == parse_rules_from(s@, cb + 1int));
                }
            },
        }
        k = cb + 1;
        proof {
            assert(out@.map_values(|rr: Rule| rr@) + parse_rules_from(s@, k as int)
                =~= spec_parse_rules(s@));
        }
    }
    proof {
        assert(parse_rules_from(s@, k as int) == Seq::<RuleV>::empty());
        assert(out@.map_values(|rr: Rule| rr@) =~= spec_parse_rules(s@));
    }
    out
}

} // verus!
