//! Which copies of the image being edited are up to date. The image is kept
//! in three colour spaces; an edit made in one leaves the other two stale,
//! and bringing a copy up to date is a sequence of conversions between
//! them. This module decides which conversions to run; running them is the
//! caller's part.

use vstd::prelude::*;

verus! {

/// A conversion of the image from one colour space to another.
#[derive(Clone, Copy, PartialEq, Eq, Structural, Debug)]
pub enum Conversion {
    HslToRgb,
    OklabToRgb,
    RgbToHsl,
    RgbToOklab,
}

/// Whether the RGB, HSL and Oklab copies are up to date.
pub type Freshness = (bool, bool, bool);

/// The copies after a conversion: its target is up to date.
pub open spec fn after(f: Freshness, c: Conversion) -> Freshness {
    match c {
        Conversion::HslToRgb => (true, f.1, f.2),
        Conversion::OklabToRgb => (true, f.1, f.2),
        Conversion::RgbToHsl => (f.0, true, f.2),
        Conversion::RgbToOklab => (f.0, f.1, true),
    }
}

/// The copies after a sequence of conversions, run in order.
pub open spec fn after_all(f: Freshness, plan: Seq<Conversion>) -> Freshness
    decreases plan.len(),
{
    if plan.len() == 0 {
        f
    } else {
        after(after_all(f, plan.drop_last()), plan.last())
    }
}

/// Bringing the RGB copy up to date: from the HSL copy if that one is up to
/// date, else from the Oklab copy; nothing when it already is, or when no
/// copy is.
pub open spec fn rgb_plan(f: Freshness) -> Seq<Conversion> {
    if f.0 {
        seq![]
    } else if f.1 {
        seq![Conversion::HslToRgb]
    } else if f.2 {
        seq![Conversion::OklabToRgb]
    } else {
        seq![]
    }
}

/// Bringing the HSL copy up to date: through the RGB copy, which is first
/// rebuilt from the Oklab copy when that one is up to date.
pub open spec fn hsl_plan(f: Freshness) -> Seq<Conversion> {
    if f.1 {
        seq![]
    } else if f.2 {
        rgb_plan(f).push(Conversion::RgbToHsl)
    } else {
        seq![Conversion::RgbToHsl]
    }
}

/// Bringing the Oklab copy up to date: through the RGB copy, which is first
/// rebuilt from the HSL copy when that one is up to date.
pub open spec fn oklab_plan(f: Freshness) -> Seq<Conversion> {
    if f.2 {
        seq![]
    } else if f.1 {
        rgb_plan(f).push(Conversion::RgbToOklab)
    } else {
        seq![Conversion::RgbToOklab]
    }
}

/// Bringing every copy up to date: RGB, then HSL, then Oklab.
pub open spec fn update_plan(f: Freshness) -> Seq<Conversion> {
    let p1 = rgb_plan(f);
    let f1 = after_all(f, p1);
    let p2 = hsl_plan(f1);
    let f2 = after_all(f1, p2);
    p1 + p2 + oklab_plan(f2)
}

/// The state of the three copies: which are enabled and which are up to
/// date.
#[derive(Clone, Copy, Debug)]
pub struct BufferState {
    enabled: (bool, bool, bool),
    updated: (bool, bool, bool),
}

impl BufferState {
    pub closed spec fn freshness(&self) -> Freshness {
        self.updated
    }

    pub closed spec fn enabled_copies(&self) -> (bool, bool, bool) {
        self.enabled
    }

    /// No copy enabled; all up to date.
    pub fn new() -> (s: BufferState)
        ensures
            s.enabled_copies() == (false, false, false),
            s.freshness() == (true, true, true),
    {
        BufferState { enabled: (false, false, false), updated: (true, true, true) }
    }

    /// Built from an RGB image: only the RGB copy enabled.
    pub fn from_rgb() -> (s: BufferState)
        ensures
            s.enabled_copies() == (true, false, false),
            s.freshness() == (true, true, true),
    {
        BufferState { enabled: (true, false, false), updated: (true, true, true) }
    }

    /// Built from an HSL image: only the HSL copy enabled.
    pub fn from_hsl() -> (s: BufferState)
        ensures
            s.enabled_copies() == (false, true, false),
            s.freshness() == (true, true, true),
    {
        BufferState { enabled: (false, true, false), updated: (true, true, true) }
    }

    /// Built from an Oklab image: only the Oklab copy enabled.
    pub fn from_oklab() -> (s: BufferState)
        ensures
            s.enabled_copies() == (false, false, true),
            s.freshness() == (true, true, true),
    {
        BufferState { enabled: (false, false, true), updated: (true, true, true) }
    }

    /// Enables the RGB copy, and the HSL and Oklab ones as asked.
    pub fn set_updates(&mut self, hsl: bool, oklab: bool)
        ensures
            final(self).enabled_copies() == (true, hsl, oklab),
            final(self).freshness() == old(self).freshness(),
    {
        self.enabled = (true, hsl, oklab);
    }

    /// Marks each copy as up to date or not.
    pub fn set_updated(&mut self, rgb: bool, hsl: bool, oklab: bool)
        ensures
            final(self).freshness() == (rgb, hsl, oklab),
            final(self).enabled_copies() == old(self).enabled_copies(),
    {
        self.updated = (rgb, hsl, oklab);
    }

    /// The RGB copy was replaced: it alone is up to date.
    pub fn replace_rgb(&mut self)
        ensures
            final(self).freshness() == (true, false, false),
            final(self).enabled_copies() == old(self).enabled_copies(),
    {
        self.updated = (true, false, false);
    }

    /// The HSL copy was replaced: it alone is up to date.
    pub fn replace_hsl(&mut self)
        ensures
            final(self).freshness() == (false, true, false),
            final(self).enabled_copies() == old(self).enabled_copies(),
    {
        self.updated = (false, true, false);
    }

    /// The Oklab copy was replaced: it alone is up to date.
    pub fn replace_oklab(&mut self)
        ensures
            final(self).freshness() == (false, false, true),
            final(self).enabled_copies() == old(self).enabled_copies(),
    {
        self.updated = (false, false, true);
    }

    /// All copies were emptied: all count as up to date.
    pub fn reset(&mut self)
        ensures
            final(self).freshness() == (true, true, true),
            final(self).enabled_copies() == old(self).enabled_copies(),
    {
        self.updated = (true, true, true);
    }

    /// Records a conversion that was run.
    pub fn converted(&mut self, c: Conversion)
        ensures
            final(self).freshness() == after(old(self).freshness(), c),
            final(self).enabled_copies() == old(self).enabled_copies(),
    {
        match c {
            Conversion::HslToRgb => self.updated.0 = true,
            Conversion::OklabToRgb => self.updated.0 = true,
            Conversion::RgbToHsl => self.updated.1 = true,
            Conversion::RgbToOklab => self.updated.2 = true,
        }
    }

    /// The conversions that bring the RGB copy up to date.
    pub fn rgb_update(&self) -> (plan: Vec<Conversion>)
        ensures
            plan@ == rgb_plan(self.freshness()),
    {
        let mut plan: Vec<Conversion> = Vec::new();
        if self.updated.0 {
        } else if self.updated.1 {
            plan.push(Conversion::HslToRgb);
        } else if self.updated.2 {
            plan.push(Conversion::OklabToRgb);
        }
        assert(plan@ =~= rgb_plan(self.freshness()));
        plan
    }

    /// The conversions that bring the HSL copy up to date.
    pub fn hsl_update(&self) -> (plan: Vec<Conversion>)
        ensures
            plan@ == hsl_plan(self.freshness()),
    {
        if self.updated.1 {
            let plan: Vec<Conversion> = Vec::new();
            assert(plan@ =~= hsl_plan(self.freshness()));
            plan
        } else {
            let mut plan: Vec<Conversion> = if self.updated.2 {
                self.rgb_update()
            } else {
                Vec::new()
            };
            plan.push(Conversion::RgbToHsl);
            assert(plan@ =~= hsl_plan(self.freshness()));
            plan
        }
    }

    /// The conversions that bring the Oklab copy up to date.
    pub fn oklab_update(&self) -> (plan: Vec<Conversion>)
        ensures
            plan@ == oklab_plan(self.freshness()),
    {
        if self.updated.2 {
            let plan: Vec<Conversion> = Vec::new();
            assert(plan@ =~= oklab_plan(self.freshness()));
            plan
        } else {
            let mut plan: Vec<Conversion> = if self.updated.1 {
                self.rgb_update()
            } else {
                Vec::new()
            };
            plan.push(Conversion::RgbToOklab);
            assert(plan@ =~= oklab_plan(self.freshness()));
            plan
        }
    }
}

/// Running two sequences of conversions one after the other.
proof fn lemma_after_all_concat(f: Freshness, a: Seq<Conversion>, b: Seq<Conversion>)
    ensures
        after_all(f, a + b) == after_all(after_all(f, a), b),
    decreases b.len(),
{
    if b.len() == 0 {
        assert(a + b =~= a);
    } else {
        lemma_after_all_concat(f, a, b.drop_last());
        assert((a + b).drop_last() =~= a + b.drop_last());
        assert((a + b).last() == b.last());
    }
}

/// Conversions never make a copy stale.
proof fn lemma_after_all_keeps(f: Freshness, plan: Seq<Conversion>)
    ensures
        f.0 ==> after_all(f, plan).0,
        f.1 ==> after_all(f, plan).1,
        f.2 ==> after_all(f, plan).2,
    decreases plan.len(),
{
    if plan.len() > 0 {
        lemma_after_all_keeps(f, plan.drop_last());
    }
}

/// Bringing the RGB copy up to date leaves it up to date whenever some copy
/// was, and keeps the others as they were.
pub proof fn law_rgb_update_refreshes(f: Freshness)
    requires
        f.0 || f.1 || f.2,
    ensures
        after_all(f, rgb_plan(f)) == (true, f.1, f.2),
{
    reveal_with_fuel(after_all, 2);
    if rgb_plan(f).len() == 1 {
        assert(rgb_plan(f).drop_last() =~= seq![]);
    }
}

/// Bringing the HSL copy up to date always leaves it up to date, and never
/// makes another copy stale.
pub proof fn law_hsl_update_refreshes(f: Freshness)
    ensures
        after_all(f, hsl_plan(f)).1,
        f.0 ==> after_all(f, hsl_plan(f)).0,
        f.2 ==> after_all(f, hsl_plan(f)).2,
{
    let p = hsl_plan(f);
    if p.len() > 0 {
        lemma_after_all_keeps(f, p.drop_last());
        assert(p.last() == Conversion::RgbToHsl);
    }
}

/// Bringing the Oklab copy up to date always leaves it up to date, and
/// never makes another copy stale.
pub proof fn law_oklab_update_refreshes(f: Freshness)
    ensures
        after_all(f, oklab_plan(f)).2,
        f.0 ==> after_all(f, oklab_plan(f)).0,
        f.1 ==> after_all(f, oklab_plan(f)).1,
{
    let p = oklab_plan(f);
    if p.len() > 0 {
        lemma_after_all_keeps(f, p.drop_last());
        assert(p.last() == Conversion::RgbToOklab);
    }
}

/// Updating every copy, RGB then HSL then Oklab, leaves all three up to
/// date, whatever their state before.
pub proof fn law_update_refreshes_all(f: Freshness)
    ensures
        after_all(f, update_plan(f)) == (true, true, true),
{
    let p1 = rgb_plan(f);
    let f1 = after_all(f, p1);
    let p2 = hsl_plan(f1);
    let f2 = after_all(f1, p2);
    let p3 = oklab_plan(f2);
    lemma_after_all_concat(f, p1, p2);
    lemma_after_all_concat(f, p1 + p2, p3);
    law_hsl_update_refreshes(f1);
    law_oklab_update_refreshes(f2);
    let f3 = after_all(f2, p3);
    reveal_with_fuel(after_all, 2);
    if !f3.0 {
        // the RGB copy is rebuilt from HSL by the Oklab step when it was stale
        assert(f2.1);
        if !f2.2 {
            assert(p3 == rgb_plan(f2).push(Conversion::RgbToOklab));
            assert(rgb_plan(f2) == seq![Conversion::HslToRgb]);
            assert(p3.drop_last() =~= seq![Conversion::HslToRgb]);
            assert(after_all(f2, seq![Conversion::HslToRgb]).0) by {
                assert(seq![Conversion::HslToRgb].drop_last() =~= seq![]);
            }
        } else {
            lemma_after_all_keeps(f1, p2);
        }
    }
}

} // verus!
