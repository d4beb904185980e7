//! Kinds of tone curves, the filters of the editing pipeline and the array
//! that holds each filter's parameters at the slot of its type.

use vstd::prelude::*;

verus! {

/// How the points of a tone curve are joined.
#[derive(Debug, PartialEq, Eq, Structural, Clone, Copy)]
pub enum CurveType {
    MONOTONE,
    SMOOTH,
}

/// Errors of tone-curve editing.
#[allow(non_camel_case_types)]
#[derive(Debug)]
pub enum CurveError {
    OUT_OF_RANGE(String),
}

/// The filters of the editing pipeline, in their order of application.
#[derive(Clone, Copy, Debug, PartialEq, Eq, Structural)]
pub enum FilterType {
    Exposition,
    Sharpening,
    WhiteBalance,
    Contrast,
    Saturation,
    GaussianBlur,
    Boxblur,
}

impl FilterType {
    /// Position of the filter in the order of application.
    pub open spec fn slot(self) -> nat {
        match self {
            FilterType::Exposition => 0,
            FilterType::Sharpening => 1,
            FilterType::WhiteBalance => 2,
            FilterType::Contrast => 3,
            FilterType::Saturation => 4,
            FilterType::GaussianBlur => 5,
            FilterType::Boxblur => 6,
        }
    }

    /// The slot of the filter in the filter array.
    pub fn index(&self) -> (r: usize)
        ensures
            r == self.slot(),
    {
        match self {
            FilterType::Exposition => 0,
            FilterType::Sharpening => 1,
            FilterType::WhiteBalance => 2,
            FilterType::Contrast => 3,
            FilterType::Saturation => 4,
            FilterType::GaussianBlur => 5,
            FilterType::Boxblur => 6,
        }
    }
}

/// The filter type at slot `i` of a filter array.
pub open spec fn slot_type(i: int) -> FilterType {
    if i == 0 {
        FilterType::Exposition
    } else if i == 1 {
        FilterType::Sharpening
    } else if i == 2 {
        FilterType::WhiteBalance
    } else if i == 3 {
        FilterType::Contrast
    } else if i == 4 {
        FilterType::Saturation
    } else if i == 5 {
        FilterType::GaussianBlur
    } else {
        FilterType::Boxblur
    }
}

fn type_at(i: usize) -> (t: FilterType)
    requires
        i < 7,
    ensures
        t == slot_type(i as int),
        t.slot() == i,
{
    if i == 0 {
        FilterType::Exposition
    } else if i == 1 {
        FilterType::Sharpening
    } else if i == 2 {
        FilterType::WhiteBalance
    } else if i == 3 {
        FilterType::Contrast
    } else if i == 4 {
        FilterType::Saturation
    } else if i == 5 {
        FilterType::GaussianBlur
    } else {
        FilterType::Boxblur
    }
}

/// A filter and its parameters.
#[derive(Debug, Clone)]
pub struct Filter<P> {
    pub filtertype: FilterType,
    pub parameters: Vec<P>,
}

/// The parameters the last filter of `given` with the type of slot `slot`
/// has, or `default` when none has it.
pub open spec fn given_params<P>(given: Seq<Filter<P>>, slot: int, default: Seq<P>) -> Seq<P>
    decreases given.len(),
{
    if given.len() == 0 {
        default
    } else if given.last().filtertype.slot() == slot {
        given.last().parameters@
    } else {
        given_params(given.drop_last(), slot, default)
    }
}

/// The filters handed to a new filter array, if any.
pub open spec fn given_filters<P>(filters: Option<Vec<Filter<P>>>) -> Seq<Filter<P>> {
    match filters {
        Some(f) => f@,
        None => Seq::empty(),
    }
}

/// The filters of the pipeline, one per type, each at the slot of its type.
#[derive(Debug, Clone)]
pub struct FilterArray<P> {
    filters: Vec<Filter<P>>,
}

impl<P> FilterArray<P> {
    /// The filters, by slot.
    pub closed spec fn entries(&self) -> Seq<Filter<P>> {
        self.filters@
    }

    /// One filter per type, each at its slot.
    pub open spec fn well_formed(&self) -> bool {
        &&& self.entries().len() == 7
        &&& forall|i: int| 0 <= i < 7 ==> #[trigger] self.entries()[i].filtertype == slot_type(i)
    }

    /// The filters of every type with the given parameters, taken from the
    /// last of `filters` with that type, and else from `defaults` (given by
    /// slot).
    pub fn new(defaults: Vec<Vec<P>>, filters: Option<Vec<Filter<P>>>) -> (fa: FilterArray<P>)
        requires
            defaults@.len() == 7,
        ensures
            fa.well_formed(),
            forall|i: int|
                0 <= i < 7 ==> #[trigger] fa.entries()[i].parameters@ == given_params(
                    given_filters(filters),
                    i,
                    defaults@[i]@,
                ),
    {
        let ghost given0: Seq<Filter<P>> = given_filters(filters);
        let ghost defs = defaults@;
        let mut defaults = defaults;
        let mut fa: Vec<Filter<P>> = Vec::new();
        let mut set: Vec<bool> = Vec::new();
        let mut i: usize = 0;
        while i < 7
            invariant
                defs.len() == 7,
                i <= 7,
                defaults@ == defs.subrange(i as int, 7),
                fa@.len() == i,
                set@.len() == i,
                forall|k: int| 0 <= k < i ==> #[trigger] fa@[k].filtertype == slot_type(k),
                forall|k: int| 0 <= k < i ==> #[trigger] fa@[k].parameters@ == defs[k]@,
                forall|k: int| 0 <= k < i ==> !#[trigger] set@[k],
            decreases 7 - i,
        {
            let parameters = defaults.remove(0);
            assert(defs.subrange(i as int, 7).remove(0) =~= defs.subrange(i + 1, 7));
            fa.push(Filter { filtertype: type_at(i), parameters });
            set.push(false);
            i = i + 1;
        }
        let mut given: Vec<Filter<P>> = match filters {
            Some(f) => f,
            None => Vec::new(),
        };
        while given.len() > 0
            invariant
                defs.len() == 7,
                fa@.len() == 7,
                set@.len() == 7,
                given@ == given0.subrange(0, given@.len() as int),
                given@.len() <= given0.len(),
                forall|k: int| 0 <= k < 7 ==> #[trigger] fa@[k].filtertype == slot_type(k),
                forall|k: int|
                    0 <= k < 7 ==> given_params(given0, k, defs[k]@) == if #[trigger] set@[k] {
                        fa@[k].parameters@
                    } else {
                        given_params(given@, k, defs[k]@)
                    },
                forall|k: int| 0 <= k < 7 && !#[trigger] set@[k] ==> fa@[k].parameters@ == defs[k]@,
            decreases given@.len(),
        {
            let ghost before = given@;
            let f = given.pop().unwrap();
            assert(before.drop_last() =~= given@);
            assert(given@ =~= given0.subrange(0, given@.len() as int));
            let s: usize = f.filtertype.index();
            if !set[s] {
                let t = f.filtertype;
                fa.set(s, Filter { filtertype: t, parameters: f.parameters });
                set.set(s, true);
            }
        }
        assert forall|k: int| 0 <= k < 7 implies #[trigger] fa@[k].parameters@ == given_params(
            given0,
            k,
            defs[k]@,
        ) by {
            if !set@[k] {
                assert(given_params(given@, k, defs[k]@) == defs[k]@);
            }
        }
        FilterArray { filters: fa }
    }

    /// Replaces the parameters of the filter of type `filtertype`.
    pub fn update_filter(&mut self, filtertype: FilterType, parameters: Vec<P>)
        requires
            old(self).well_formed(),
        ensures
            final(self).well_formed(),
            forall|i: int|
                0 <= i < 7 ==> #[trigger] final(self).entries()[i].parameters@ == if i == filtertype.slot() {
                    parameters@
                } else {
                    old(self).entries()[i].parameters@
                },
    {
        let s: usize = filtertype.index();
        self.filters.set(s, Filter { filtertype, parameters });
    }

    /// The parameters of the filter of type `filtertype`.
    pub fn get_filter(&self, filtertype: FilterType) -> (r: &Vec<P>)
        requires
            self.well_formed(),
        ensures
            r@ == self.entries()[filtertype.slot() as int].parameters@,
    {
        &self.filters[filtertype.index()].parameters
    }

    /// The filters, by slot.
    pub fn filters(&self) -> (r: &Vec<Filter<P>>)
        ensures
            r@ == self.entries(),
    {
        &self.filters
    }
}

} // verus!
