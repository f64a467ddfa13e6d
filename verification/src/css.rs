use vstd::prelude::*;
use crate::geom::MAX_LEN_H;
use crate::node::DisplayOuter;

verus! {

/// The provenance tier of a stylesheet.  UserAgent rules always sit below
/// Author rules in the cascade, whatever order the sheets were added in.
#[derive(Clone, Copy, Debug, PartialEq, Eq, Structural)]
pub enum Origin {
    UserAgent,
    Author,
}

/// A simple selector.  Identifier text is kept as UTF-8 bytes, exactly as
/// it appeared in the stylesheet source.
#[derive(Clone, Debug, PartialEq, Eq)]
pub enum Selector {
    Universal,
    Tag(Vec<u8>),
    Class(Vec<u8>),
    Id(Vec<u8>),
}

/// The mathematical model of a selector.
pub enum SelectorV {
    Universal,
    Tag(Seq<u8>),
    Class(Seq<u8>),
    Id(Seq<u8>),
}

impl View for Selector {
    type V = SelectorV;

    open spec fn view(&self) -> SelectorV {
        match self {
            Selector::Universal => SelectorV::Universal,
            Selector::Tag(t) => SelectorV::Tag(t@),
            Selector::Class(c) => SelectorV::Class(c@),
            Selector::Id(i) => SelectorV::Id(i@),
        }
    }
}

/// One parsed declaration.  Lengths are in hundredths of a device pixel.
#[derive(Clone, Debug, PartialEq, Eq)]
pub enum Declaration {
    Width(i64),
    Height(i64),
    Display(DisplayOuter),
    Color(Vec<u8>),
    Order(i64),
}

/// The mathematical model of a declaration.
pub enum DeclV {
    Width(i64),
    Height(i64),
    Display(DisplayOuter),
    Color(Seq<u8>),
    Order(i64),
}

impl View for Declaration {
    type V = DeclV;

    open spec fn view(&self) -> DeclV {
        match self {
            Declaration::Width(w) => DeclV::Width(*w),
            Declaration::Height(h) => DeclV::Height(*h),
            Declaration::Display(d) => DeclV::Display(*d),
            Declaration::Color(c) => DeclV::Color(c@),
            Declaration::Order(o) => DeclV::Order(*o),
        }
    }
}

impl DeclV {
    /// Parsed lengths are clamped into the representable range.
    pub open spec fn wf(self) -> bool {
        match self {
            DeclV::Width(w) => 0 <= w <= MAX_LEN_H,
            DeclV::Height(h) => 0 <= h <= MAX_LEN_H,
            DeclV::Order(o) => -1_000_000_000 <= o <= 1_000_000_000,
            _ => true,
        }
    }
}

/// The views of a list of owned declarations.
pub open spec fn decls_view(ds: Seq<Declaration>) -> Seq<DeclV> {
    ds.map_values(|d: Declaration| d@)
}

/// Make an owned copy of a declaration with the same view.
pub fn copy_decl(d: &Declaration) -> (r: Declaration)
    ensures
        r@ == d@,
{
    match d {
        Declaration::Width(w) => Declaration::Width(*w),
        Declaration::Height(h) => Declaration::Height(*h),
        Declaration::Display(dd) => Declaration::Display(*dd),
        Declaration::Color(c) => {
            let mut v: Vec<u8> = Vec::new();
            v.extend_from_slice(c.as_slice());
            assert(v@ =~= c@);
            Declaration::Color(v)
        },
        Declaration::Order(o) => Declaration::Order(*o),
    }
}

/// One rule: a selector plus the declarations of its block, in source
/// order, with the malformed ones already dropped.
#[derive(Clone, Debug, PartialEq, Eq)]
pub struct Rule {
    pub selector: Selector,
    pub declarations: Vec<Declaration>,
}

/// The mathematical model of a rule.
pub struct RuleV {
    pub selector: SelectorV,
    pub declarations: Seq<DeclV>,
}

impl View for Rule {
    type V = RuleV;

    open spec fn view(&self) -> RuleV {
        RuleV { selector: self.selector@, declarations: decls_view(self.declarations@) }
    }
}

impl RuleV {
    pub open spec fn wf(self) -> bool {
        forall|i: int| 0 <= i < self.declarations.len() ==> (#[trigger] self.declarations[i]).wf()
    }
}

/// One parsed stylesheet.
#[derive(Clone, Debug, PartialEq, Eq)]
pub struct Sheet {
    pub rules: Vec<Rule>,
}

/// The mathematical model of a stylesheet: its rules in source order.
pub struct SheetV {
    pub rules: Seq<RuleV>,
}

impl View for Sheet {
    type V = SheetV;

    open spec fn view(&self) -> SheetV {
        SheetV { rules: self.rules@.map_values(|r: Rule| r@) }
    }
}

impl SheetV {
    pub open spec fn wf(self) -> bool {
        forall|i: int| 0 <= i < self.rules.len() ==> (#[trigger] self.rules[i]).wf()
    }
}

/// The per-element output of the cascade.  `width` and `height` are in
/// hundredths of a pixel; absent properties keep their defaults.
#[derive(Clone, Debug, PartialEq, Eq)]
pub struct ComputedStyle {
    pub width: Option<i64>,
    pub height: Option<i64>,
    pub display: DisplayOuter,
    pub color: Option<Vec<u8>>,
    pub order: i64,
}

/// The mathematical model of a computed style.
pub struct ComputedStyleV {
    pub width: Option<i64>,
    pub height: Option<i64>,
    pub display: DisplayOuter,
    pub color: Option<Seq<u8>>,
    pub order: i64,
}

impl View for ComputedStyle {
    type V = ComputedStyleV;

    open spec fn view(&self) -> ComputedStyleV {
        ComputedStyleV {
            width: self.width,
            height: self.height,
            display: self.display,
            color: match self.color {
                Some(c) => Some(c@),
                None => None,
            },
            order: self.order,
        }
    }
}

impl ComputedStyleV {
    pub open spec fn wf(self) -> bool {
        &&& (self.width is Some ==> 0 <= self.width->0 <= MAX_LEN_H)
        &&& (self.height is Some ==> 0 <= self.height->0 <= MAX_LEN_H)
        &&& -1_000_000_000 <= self.order <= 1_000_000_000
    }

    pub open spec fn spec_default() -> ComputedStyleV {
        ComputedStyleV {
            width: None,
            height: None,
            display: DisplayOuter::Block,
            color: None,
            order: 0,
        }
    }
}

/// The view of an optional computed style slot.
pub open spec fn style_view(o: Option<ComputedStyle>) -> Option<ComputedStyleV> {
    match o {
        Some(s) => Some(s@),
        None => None,
    }
}

impl Default for ComputedStyle {
    /// The style of an element no declaration matched: auto size, block
    /// display, no color override.
    fn default() -> (r: ComputedStyle)
        ensures
            r@ == ComputedStyleV::spec_default(),
    {
        ComputedStyle { width: None, height: None, display: DisplayOuter::Block, color: None, order: 0 }
    }
}

/// Make an owned copy of a computed style with the same view.
pub fn copy_style(s: &ComputedStyle) -> (r: ComputedStyle)
    ensures
        r@ == s@,
{
    ComputedStyle {
        width: s.width,
        height: s.height,
        display: s.display,
        color: match &s.color {
            Some(c) => {
                let mut v: Vec<u8> = Vec::new();
                v.extend_from_slice(c.as_slice());
                assert(v@ =~= c@);
                Some(v)
            },
            None => None,
        },
        order: s.order,
    }
}

/// The ordered collection of parsed stylesheets, partitioned by origin.
/// Within an origin, append order is precedence order; the per-origin
/// dirty flag is set on every addition and cleared by a successful style
/// phase.
pub struct StylesheetRegistry {
    pub user_agent: Vec<Sheet>,
    pub author: Vec<Sheet>,
    pub ua_dirty: bool,
    pub author_dirty: bool,
}

impl StylesheetRegistry {
    pub open spec fn ua_view(self) -> Seq<SheetV> {
        self.user_agent@.map_values(|s: Sheet| s@)
    }

    pub open spec fn author_view(self) -> Seq<SheetV> {
        self.author@.map_values(|s: Sheet| s@)
    }

    pub open spec fn wf(self) -> bool {
        &&& (forall|i: int| 0 <= i < self.ua_view().len() ==> (#[trigger] self.ua_view()[i]).wf())
        &&& (forall|i: int|
            0 <= i < self.author_view().len() ==> (#[trigger] self.author_view()[i]).wf())
    }

    pub fn new() -> (r: StylesheetRegistry)
        ensures
            r.ua_view() == Seq::<SheetV>::empty(),
            r.author_view() == Seq::<SheetV>::empty(),
            !r.ua_dirty,
            !r.author_dirty,
            r.wf(),
    {
        let r = StylesheetRegistry {
            user_agent: Vec::new(),
            author: Vec::new(),
            ua_dirty: false,
            author_dirty: false,
        };
        proof {
            assert(r.ua_view() =~= Seq::<SheetV>::empty());
            assert(r.author_view() =~= Seq::<SheetV>::empty());
        }
        r
    }

    /// Append a parsed sheet under its origin and mark that origin dirty.
    pub fn add_sheet(&mut self, origin: Origin, sheet: Sheet)
        ensures
            match origin {
                Origin::UserAgent => {
                    &&& final(self).ua_view() == old(self).ua_view().push(sheet@)
                    &&& final(self).author_view() == old(self).author_view()
                    &&& final(self).ua_dirty
                    &&& final(self).author_dirty == old(self).author_dirty
                },
                Origin::Author => {
                    &&& final(self).ua_view() == old(self).ua_view()
                    &&& final(self).author_view() == old(self).author_view().push(sheet@)
                    &&& final(self).author_dirty
                    &&& final(self).ua_dirty == old(self).ua_dirty
                },
            },
            old(self).wf() && sheet@.wf() ==> final(self).wf(),
    {
        let ghost pre = *self;
        match origin {
            Origin::UserAgent => {
                self.user_agent.push(sheet);
                self.ua_dirty = true;
            },
            Origin::Author => {
                self.author.push(sheet);
                self.author_dirty = true;
            },
        }
        proof {
            match origin {
                Origin::UserAgent => {
                    assert(final(self).ua_view() =~= pre.ua_view().push(sheet@));
                    assert(final(self).author_view() =~= pre.author_view());
                },
                Origin::Author => {
                    assert(final(self).author_view() =~= pre.author_view().push(sheet@));
                    assert(final(self).ua_view() =~= pre.ua_view());
                },
            }
        }
    }

    /// Clear both dirty flags, as the end of a successful style phase does.
    pub fn clear_dirty(&mut self)
        ensures
            final(self).user_agent == old(self).user_agent,
            final(self).author == old(self).author,
            !final(self).ua_dirty,
            !final(self).author_dirty,
    {
        self.ua_dirty = false;
        self.author_dirty = false;
    }
}

} // verus!
