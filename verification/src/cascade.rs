use vstd::prelude::*;
use vstd::utf8::encode_utf8;
use crate::css::{
    copy_decl, decls_view, ComputedStyle, ComputedStyleV, DeclV, Declaration, RuleV, SelectorV,
    Sheet, SheetV,
};
use crate::geom::MAX_LEN_H;
use crate::node::{spec_attr, DisplayOuter, ElementNodeData};
use crate::strutil::eq_bytes;

verus! {

/// One declaration together with its cascade precedence: origin rank
/// (0 UserAgent, 1 Author, 2 inline style) and selector specificity.
pub struct Candidate {
    pub origin_rank: u8,
    pub specificity: u8,
    pub decl: Declaration,
}

/// The mathematical model of a candidate.
pub struct CandidateV {
    pub origin_rank: u8,
    pub specificity: u8,
    pub decl: DeclV,
}

impl View for Candidate {
    type V = CandidateV;

    open spec fn view(&self) -> CandidateV {
        CandidateV {
            origin_rank: self.origin_rank,
            specificity: self.specificity,
            decl: self.decl@,
        }
    }
}

/// Specificity of a simple selector: id beats class beats tag beats the
/// universal selector.
pub open spec fn spec_specificity(sel: SelectorV) -> u8 {
    match sel {
        SelectorV::Id(_) => 3,
        SelectorV::Class(_) => 2,
        SelectorV::Tag(_) => 1,
        SelectorV::Universal => 0,
    }
}

/// Whether a simple selector matches an element.
pub open spec fn sel_matches(sel: SelectorV, e: ElementNodeData) -> bool {
    match sel {
        SelectorV::Universal => true,
        SelectorV::Tag(t) => t == encode_utf8(e.name@),
        SelectorV::Id(ib) => match spec_attr(e.attrs@, "id"@) {
            Some(v) => encode_utf8(v) == ib,
            None => false,
        },
        SelectorV::Class(cb) => match spec_attr(e.attrs@, "class"@) {
            Some(v) => encode_utf8(v) == cb,
            None => false,
        },
    }
}

fn sel_matches_exec(sel: &crate::css::Selector, e: &ElementNodeData) -> (r: bool)
    ensures
        r == sel_matches(sel@, *e),
{
    match sel {
        crate::css::Selector::Universal => true,
        crate::css::Selector::Tag(t) => {
            let r = eq_bytes(e.name.as_str().as_bytes(), t.as_slice());
            r
        },
        crate::css::Selector::Id(ib) => match e.attr("id") {
            Some(v) => eq_bytes(v.as_bytes(), ib.as_slice()),
            None => false,
        },
        crate::css::Selector::Class(cb) => match e.attr("class") {
            Some(v) => eq_bytes(v.as_bytes(), cb.as_slice()),
            None => false,
        },
    }
}

/// The candidates one rule contributes for an element.
pub open spec fn rule_cands(orank: u8, r: RuleV, e: ElementNodeData) -> Seq<CandidateV> {
    if sel_matches(r.selector, e) {
        r.declarations.map_values(
            |d: DeclV|
                CandidateV { origin_rank: orank, specificity: spec_specificity(r.selector), decl: d },
        )
    } else {
        Seq::empty()
    }
}

/// The candidates of the first `k` rules of a sheet, in order.
pub open spec fn rules_cands_upto(orank: u8, rules: Seq<RuleV>, e: ElementNodeData, k: int) -> Seq<
    CandidateV,
>
    decreases k,
{
    if k <= 0 || k > rules.len() {
        Seq::empty()
    } else {
        rules_cands_upto(orank, rules, e, k - 1) + rule_cands(orank, rules[k - 1], e)
    }
}

/// The candidates of the first `k` sheets of one origin, in order.
pub open spec fn sheets_cands_upto(
    orank: u8,
    sheets: Seq<SheetV>,
    e: ElementNodeData,
    k: int,
) -> Seq<CandidateV>
    decreases k,
{
    if k <= 0 || k > sheets.len() {
        Seq::empty()
    } else {
        sheets_cands_upto(orank, sheets, e, k - 1) + rules_cands_upto(
            orank,
            sheets[k - 1].rules,
            e,
            sheets[k - 1].rules.len() as int,
        )
    }
}

/// The candidates of the parsed `style` attribute, above every sheet.
pub open spec fn inline_cands(e: ElementNodeData) -> Seq<CandidateV> {
    match e.style_attribute {
        Some(ds) => decls_view(ds@).map_values(
            |d: DeclV| CandidateV { origin_rank: 2, specificity: 0, decl: d },
        ),
        None => Seq::empty(),
    }
}

/// Every candidate declaration for an element, in cascade order:
/// UserAgent sheets first, then Author sheets, then the inline style;
/// within an origin, sheet append order, then rule order, then
/// declaration order.
pub open spec fn all_cands(ua: Seq<SheetV>, au: Seq<SheetV>, e: ElementNodeData) -> Seq<
    CandidateV,
> {
    sheets_cands_upto(0, ua, e, ua.len() as int) + sheets_cands_upto(1, au, e, au.len() as int)
        + inline_cands(e)
}

/// Whether precedence `(no, ns)` is at least precedence `(co, cs)`:
/// origin rank first, then specificity; a later equal key wins.
pub open spec fn key_ge(no: u8, ns: u8, co: u8, cs: u8) -> bool {
    no > co || (no == co && ns >= cs)
}

/// Clamp a length into the representable range.
pub open spec fn clamp_len(w: i64) -> i64 {
    if w < 0 {
        0
    } else if w > MAX_LEN_H {
        MAX_LEN_H
    } else {
        w
    }
}

/// Clamp an `order` value.
pub open spec fn clamp_order(o: i64) -> i64 {
    if o < -1_000_000_000i64 {
        -1_000_000_000i64
    } else if o > 1_000_000_000i64 {
        1_000_000_000i64
    } else {
        o
    }
}

/// The running per-property best of the cascade fold.
pub struct CascadeState {
    pub width: Option<(i64, u8, u8)>,
    pub height: Option<(i64, u8, u8)>,
    pub display: Option<(DisplayOuter, u8, u8)>,
    pub color: Option<(Vec<u8>, u8, u8)>,
    pub order: Option<(i64, u8, u8)>,
}

/// The mathematical model of the fold state.
pub struct CascadeStateV {
    pub width: Option<(i64, u8, u8)>,
    pub height: Option<(i64, u8, u8)>,
    pub display: Option<(DisplayOuter, u8, u8)>,
    pub color: Option<(Seq<u8>, u8, u8)>,
    pub order: Option<(i64, u8, u8)>,
}

impl View for CascadeState {
    type V = CascadeStateV;

    open spec fn view(&self) -> CascadeStateV {
        CascadeStateV {
            width: self.width,
            height: self.height,
            display: self.display,
            color: match self.color {
                Some((c, o, s)) => Some((c@, o, s)),
                None => None,
            },
            order: self.order,
        }
    }
}

pub open spec fn init_state() -> CascadeStateV {
    CascadeStateV { width: None, height: None, display: None, color: None, order: None }
}

/// Fold one candidate into the state: it takes a property slot when its
/// precedence is at least the slot's current precedence.
pub open spec fn apply_cand(st: CascadeStateV, c: CandidateV) -> CascadeStateV {
    match c.decl {
        DeclV::Width(w) => if st.width is None || key_ge(
            c.origin_rank,
            c.specificity,
            (st.width->0).1,
            (st.width->0).2,
        ) {
            CascadeStateV { width: Some((clamp_len(w), c.origin_rank, c.specificity)), ..st }
        } else {
            st
        },
        DeclV::Height(h) => if st.height is None || key_ge(
            c.origin_rank,
            c.specificity,
            (st.height->0).1,
            (st.height->0).2,
        ) {
            CascadeStateV { height: Some((clamp_len(h), c.origin_rank, c.specificity)), ..st }
        } else {
            st
        },
        DeclV::Display(d) => if st.display is None || key_ge(
            c.origin_rank,
            c.specificity,
            (st.display->0).1,
            (st.display->0).2,
        ) {
            CascadeStateV { display: Some((d, c.origin_rank, c.specificity)), ..st }
        } else {
            st
        },
        DeclV::Color(cl) => if st.color is None || key_ge(
            c.origin_rank,
            c.specificity,
            (st.color->0).1,
            (st.color->0).2,
        ) {
            CascadeStateV { color: Some((cl, c.origin_rank, c.specificity)), ..st }
        } else {
            st
        },
        DeclV::Order(o) => if st.order is None || key_ge(
            c.origin_rank,
            c.specificity,
            (st.order->0).1,
            (st.order->0).2,
        ) {
            CascadeStateV { order: Some((clamp_order(o), c.origin_rank, c.specificity)), ..st }
        } else {
            st
        },
    }
}

/// The state after folding the first `k` candidates.
pub open spec fn cascade_upto(cands: Seq<CandidateV>, k: int) -> CascadeStateV
    decreases k,
{
    if k <= 0 || k > cands.len() {
        init_state()
    } else {
        apply_cand(cascade_upto(cands, k - 1), cands[k - 1])
    }
}

/// Read the computed style out of the final fold state, with defaults
/// for untouched properties.
pub open spec fn finalize(st: CascadeStateV) -> ComputedStyleV {
    ComputedStyleV {
        width: match st.width {
            Some(w) => Some(w.0),
            None => None,
        },
        height: match st.height {
            Some(h) => Some(h.0),
            None => None,
        },
        display: match st.display {
            Some(d) => d.0,
            None => DisplayOuter::Block,
        },
        color: match st.color {
            Some(c) => Some(c.0),
            None => None,
        },
        order: match st.order {
            Some(o) => o.0,
            None => 0,
        },
    }
}

/// The cascade: the computed style an ordered candidate list yields.
pub open spec fn spec_cascade(cands: Seq<CandidateV>) -> ComputedStyleV {
    finalize(cascade_upto(cands, cands.len() as int))
}

/// The state is always within representable bounds.
pub open spec fn state_wf(st: CascadeStateV) -> bool {
    &&& (st.width is Some ==> 0 <= (st.width->0).0 <= MAX_LEN_H)
    &&& (st.height is Some ==> 0 <= (st.height->0).0 <= MAX_LEN_H)
    &&& (st.order is Some ==> -1_000_000_000 <= (st.order->0).0 <= 1_000_000_000)
}

/// Collect every candidate for `e` in cascade order.
fn collect_cands(ua: &Vec<Sheet>, au: &Vec<Sheet>, e: &ElementNodeData) -> (r: Vec<Candidate>)
    ensures
        r@.map_values(|c: Candidate| c@) == all_cands(
            ua@.map_values(|s: Sheet| s@),
            au@.map_values(|s: Sheet| s@),
            *e,
        ),
{
    let mut out: Vec<Candidate> = Vec::new();
    collect_origin(&mut out, 0, ua, e);
    proof {
        assert(out@.map_values(|c: Candidate| c@) =~= sheets_cands_upto(
            0,
            ua@.map_values(|s: Sheet| s@),
            *e,
            ua@.len() as int,
        ));
    }
    collect_origin(&mut out, 1, au, e);
    let ghost before_inline = out@.map_values(|c: Candidate| c@);
    match &e.style_attribute {
        Some(ds) => {
            let m = ds.len();
            let mut i: usize = 0;
            while i < m
                invariant
                    m == ds@.len(),
                    0 <= i <= m,
                    e.style_attribute == Some(*ds),
                    out@.map_values(|c: Candidate| c@) == before_inline + inline_cands(
                        *e,
                    ).subrange(0, i as int),
                decreases m - i,
            {
                let ghost pre = out@.map_values(|c: Candidate| c@);
                let d = copy_decl(&ds[i]);
                let c = Candidate { origin_rank: 2, specificity: 0, decl: d };
                proof {
                    assert(c@ == inline_cands(*e)[i as int]);
                }
                out.push(c);
                proof {
                    assert(out@.map_values(|cc: Candidate| cc@) =~= pre.push(
                        inline_cands(*e)[i as int],
                    ));
                    assert(pre.push(inline_cands(*e)[i as int]) =~= before_inline + inline_cands(
                        *e,
                    ).subrange(0, i + 1int));
                }
                i += 1;
            }
            proof {
                assert(inline_cands(*e).subrange(0, m as int) =~= inline_cands(*e));
            }
        },
        None => {
            proof {
                assert(inline_cands(*e) =~= Seq::<CandidateV>::empty());
            }
        },
    }
    proof {
        assert(out@.map_values(|c: Candidate| c@) =~= all_cands(
            ua@.map_values(|s: Sheet| s@),
            au@.map_values(|s: Sheet| s@),
            *e,
        ));
    }
    out
}

/// Append the candidates of one origin's sheets to `out`.
fn collect_origin(out: &mut Vec<Candidate>, orank: u8, sheets: &Vec<Sheet>, e: &ElementNodeData)
    ensures
        final(out)@.map_values(|c: Candidate| c@) == old(out)@.map_values(|c: Candidate| c@)
            + sheets_cands_upto(
            orank,
            sheets@.map_values(|s: Sheet| s@),
            *e,
            sheets@.len() as int,
        ),
{
    let ghost base = out@.map_values(|c: Candidate| c@);
    let ghost sheets_v = sheets@.map_values(|s: Sheet| s@);
    let n = sheets.len();
    let mut k: usize = 0;
    while k < n
        invariant
            n == sheets@.len(),
            0 <= k <= n,
            sheets_v == sheets@.map_values(|s: Sheet| s@),
            base == old(out)@.map_values(|c: Candidate| c@),
            out@.map_values(|c: Candidate| c@) == base + sheets_cands_upto(
                orank,
                sheets_v,
                *e,
                k as int,
            ),
        decreases n - k,
    {
        let ghost base_sheet = out@.map_values(|c: Candidate| c@);
        let ghost rules_v = sheets_v[k as int].rules;
        let m = sheets[k].rules.len();
        let mut j: usize = 0;
        while j < m
            invariant
                n == sheets@.len(),
                0 <= k < n,
                m == sheets@[k as int].rules@.len(),
                0 <= j <= m,
                sheets_v == sheets@.map_values(|s: Sheet| s@),
                rules_v == sheets_v[k as int].rules,
                rules_v.len() == m,
                out@.map_values(|c: Candidate| c@) == base_sheet + rules_cands_upto(
                    orank,
                    rules_v,
                    *e,
                    j as int,
                ),
            decreases m - j,
        {
            let ghost base_rule = out@.map_values(|c: Candidate| c@);
            let rule = &sheets[k].rules[j];
            proof {
                assert(rule@ == rules_v[j as int]);
            }
            if sel_matches_exec(&rule.selector, e) {
                let spec_v = match &rule.selector {
                    crate::css::Selector::Id(_) => 3u8,
                    crate::css::Selector::Class(_) => 2u8,
                    crate::css::Selector::Tag(_) => 1u8,
                    crate::css::Selector::Universal => 0u8,
                };
                proof {
                    assert(spec_v == spec_specificity(rules_v[j as int].selector));
                }
                let dn = rule.declarations.len();
                let mut t: usize = 0;
                while t < dn
                    invariant
                        0 <= k < sheets@.len(),
                        0 <= j < sheets@[k as int].rules@.len(),
                        rule == &sheets@[k as int].rules@[j as int],
                        dn == rule.declarations@.len(),
                        0 <= t <= dn,
                        rules_v[j as int] == rule@,
                        sel_matches(rule@.selector, *e),
                        spec_v == spec_specificity(rule@.selector),
                        out@.map_values(|c: Candidate| c@) == base_rule + rule_cands(
                            orank,
                            rule@,
                            *e,
                        ).subrange(0, t as int),
                    decreases dn - t,
                {
                    let ghost pre = out@.map_values(|c: Candidate| c@);
                    let d = copy_decl(&rule.declarations[t]);
                    let c = Candidate { origin_rank: orank, specificity: spec_v, decl: d };
                    proof {
                        assert(rule@.declarations[t as int] == rule.declarations@[t as int]@);
                        assert(c@ == rule_cands(orank, rule@, *e)[t as int]);
                    }
                    out.push(c);
                    proof {
                        assert(out@.map_values(|cc: Candidate| cc@) =~= pre.push(
                            rule_cands(orank, rule@, *e)[t as int],
                        ));
                        assert(pre.push(rule_cands(orank, rule@, *e)[t as int]) =~= base_rule
                            + rule_cands(orank, rule@, *e).subrange(0, t + 1int));
                    }
                    t += 1;
                }
                proof {
                    assert(rule_cands(orank, rule@, *e).subrange(0, dn as int) =~= rule_cands(
                        orank,
                        rule@,
                        *e,
                    ));
                    assert(rules_cands_upto(orank, rules_v, *e, j + 1int) == rules_cands_upto(
                        orank,
                        rules_v,
                        *e,
                        j as int,
                    ) + rule_cands(orank, rules_v[j as int], *e));
                    assert(out@.map_values(|c: Candidate| c@) =~= base_sheet + rules_cands_upto(
                        orank,
                        rules_v,
                        *e,
                        j + 1int,
                    ));
                }
            } else {
                proof {
                    assert(rule_cands(orank, rules_v[j as int], *e) =~= Seq::<CandidateV>::empty());
                    assert(out@.map_values(|c: Candidate| c@) =~= base_sheet + rules_cands_upto(
                        orank,
                        rules_v,
                        *e,
                        j + 1int,
                    ));
                }
            }
            j += 1;
        }
        proof {
            assert(sheets_cands_upto(orank, sheets_v, *e, k + 1int) == sheets_cands_upto(
                orank,
                sheets_v,
                *e,
                k as int,
            ) + rules_cands_upto(orank, rules_v, *e, rules_v.len() as int));
            assert(out@.map_values(|c: Candidate| c@) =~= base + sheets_cands_upto(
                orank,
                sheets_v,
                *e,
                k + 1int,
            ));
        }
        k += 1;
    }
}

fn clamp_len_exec(w: i64) -> (r: i64)
    ensures
        r == clamp_len(w),
{
    if w < 0 {
        0
    } else if w > MAX_LEN_H {
        MAX_LEN_H
    } else {
        w
    }
}

fn clamp_order_exec(o: i64) -> (r: i64)
    ensures
        r == clamp_order(o),
{
    if o < -1_000_000_000i64 {
        -1_000_000_000i64
    } else if o > 1_000_000_000i64 {
        1_000_000_000i64
    } else {
        o
    }
}

fn key_ge_exec(no: u8, ns: u8, co: u8, cs: u8) -> (r: bool)
    ensures
        r == key_ge(no, ns, co, cs),
{
    no > co || (no == co && ns >= cs)
}

/// Resolve the computed style of one element from the registry's sheets
/// and the element's inline style, by the cascade ordering rule.
pub fn cascade_style(ua: &Vec<Sheet>, au: &Vec<Sheet>, e: &ElementNodeData) -> (r: ComputedStyle)
    ensures
        r@ == spec_cascade(
            all_cands(ua@.map_values(|s: Sheet| s@), au@.map_values(|s: Sheet| s@), *e),
        ),
        r@.wf(),
{
    let cands = collect_cands(ua, au, e);
    let ghost cands_v = cands@.map_values(|c: Candidate| c@);
    let n = cands.len();
    let mut st = CascadeState { width: None, height: None, display: None, color: None, order: None };
    let mut i: usize = 0;
    while i < n
        invariant
            n == cands@.len(),
            0 <= i <= n,
            cands_v == cands@.map_values(|c: Candidate| c@),
            st@ == cascade_upto(cands_v, i as int),
            state_wf(st@),
        decreases n - i,
    {
        let ghost pre = st@;
        let c = &cands[i];
        proof {
            assert(c@ == cands_v[i as int]);
        }
        match &c.decl {
            Declaration::Width(w) => {
                let take = match &st.width {
                    None => true,
                    Some(cur) => key_ge_exec(c.origin_rank, c.specificity, cur.1, cur.2),
                };
                if take {
                    st.width = Some((clamp_len_exec(*w), c.origin_rank, c.specificity));
                }
            },
            Declaration::Height(h) => {
                let take = match &st.height {
                    None => true,
                    Some(cur) => key_ge_exec(c.origin_rank, c.specificity, cur.1, cur.2),
                };
                if take {
                    st.height = Some((clamp_len_exec(*h), c.origin_rank, c.specificity));
                }
            },
            Declaration::Display(d) => {
                let take = match &st.display {
                    None => true,
                    Some(cur) => key_ge_exec(c.origin_rank, c.specificity, cur.1, cur.2),
                };
                if take {
                    st.display = Some((*d, c.origin_rank, c.specificity));
                }
            },
            Declaration::Color(cl) => {
                let take = match &st.color {
                    None => true,
                    Some(cur) => key_ge_exec(c.origin_rank, c.specificity, cur.1, cur.2),
                };
                if take {
                    let mut copy: Vec<u8> = Vec::new();
                    copy.extend_from_slice(cl.as_slice());
                    proof {
                        assert(copy@ =~= cl@);
                    }
                    st.color = Some((copy, c.origin_rank, c.specificity));
                }
            },
            Declaration::Order(o) => {
                let take = match &st.order {
                    None => true,
                    Some(cur) => key_ge_exec(c.origin_rank, c.specificity, cur.1, cur.2),
                };
                if take {
                    st.order = Some((clamp_order_exec(*o), c.origin_rank, c.specificity));
                }
            },
        }
        proof {
            assert(st@ == apply_cand(pre, cands_v[i as int]));
        }
        i += 1;
    }
    let r = ComputedStyle {
        width: match &st.width {
            Some(w) => Some(w.0),
            None => None,
        },
        height: match &st.height {
            Some(h) => Some(h.0),
            None => None,
        },
        display: match &st.display {
            Some(d) => d.0,
            None => DisplayOuter::Block,
        },
        color: match st.color {
            Some((c, _, _)) => Some(c),
            None => None,
        },
        order: match &st.order {
            Some(o) => o.0,
            None => 0,
        },
    };
    proof {
        assert(cands_v.subrange(0, n as int) =~= cands_v);
        assert(r@ == finalize(cascade_upto(cands_v, cands_v.len() as int)));
    }
    r
}

} // verus!
