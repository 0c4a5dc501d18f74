//! Python's indexing of a list: a non-negative index counts from the
//! front, a negative one from the back.

use vstd::prelude::*;

use crate::messages::push_str;
use crate::text::string_from_chars;

verus! {

/// The position that `index` names in a list of length `len`, if any. A
/// negative index `-k` names position `len - k`; on an empty list `-1`
/// names position 0.
pub open spec fn python_index(len: int, index: int) -> Option<int> {
    if index == isize::MIN {
        None
    } else if index >= 0 {
        if len > isize::MAX || index >= len {
            None
        } else {
            Some(index)
        }
    } else {
        let back = -index - 1;
        let last = if len > 0 {
            len - 1
        } else {
            0
        };
        if back <= last {
            Some(last - back)
        } else {
            None
        }
    }
}

/// The position that `index` names in a list of length `len`; `None` for
/// an index out of range.
pub fn get_index(len: usize, index: isize) -> (res: Option<usize>)
    ensures
        match res {
            Some(i) => python_index(len as int, index as int) == Some(i as int),
            None => python_index(len as int, index as int) is None,
        },
{
    if index == isize::MIN {
        return None;
    }
    if index >= 0 {
        if len > isize::MAX as usize {
            return None;
        }
        let i = index as usize;
        if i >= len {
            None
        } else {
            Some(i)
        }
    } else {
        let back = (-(index + 1)) as usize;
        let last = if len > 0 {
            len - 1
        } else {
            0
        };
        if back <= last {
            Some(last - back)
        } else {
            None
        }
    }
}

/// On a non-empty list, an index that names a position names one inside
/// the list.
pub proof fn law_index_in_range(len: int, index: int)
    requires
        len > 0,
    ensures
        python_index(len, index) matches Some(i) ==> 0 <= i < len,
{
}

/// What a typed Python list holds.
#[derive(Debug, Clone, Copy, PartialEq, Eq, Structural)]
pub enum ListType {
    Monitor,
    Mode,
    RefreshRate,
}

/// What a Python object is, as far as a typed list is concerned: a monitor,
/// a mode, an integer that fits in a `u32`, or anything else.
#[derive(Debug, Clone, Copy, PartialEq, Eq, Structural)]
pub enum ItemKind {
    Monitor,
    Mode,
    U32(u32),
    Other,
}

/// A Python object: what it is, and the name of its type.
#[derive(Debug)]
pub struct PyItem {
    pub kind: ItemKind,
    pub type_text: String,
}

/// What is handed to a typed list to append: one object, or a Python list
/// of objects.
#[derive(Debug)]
pub enum PyValue {
    Single(PyItem),
    List(Vec<PyItem>),
}

/// What appending does: how many objects are appended (the object itself,
/// or that many leading items of the list), and the type error raised, if
/// any.
#[derive(Debug)]
pub struct AppendPlan {
    pub appended: usize,
    pub error: Option<String>,
}

/// The name a list type shows in errors.
pub open spec fn list_type_text(ty: ListType) -> Seq<char> {
    match ty {
        ListType::Monitor => "Monitor"@,
        ListType::Mode => "Mode"@,
        ListType::RefreshRate => "u32"@,
    }
}

/// Whether an object may go into a list of this type.
pub open spec fn fits(ty: ListType, k: ItemKind) -> bool {
    match ty {
        ListType::Monitor => k is Monitor,
        ListType::Mode => k is Mode,
        ListType::RefreshRate => k is U32,
    }
}

/// The kinds of a list of objects.
pub open spec fn kinds(items: Seq<PyItem>) -> Seq<ItemKind> {
    items.map_values(|i: PyItem| i.kind)
}

/// How many leading objects fit.
pub open spec fn leading_fits(ty: ListType, ks: Seq<ItemKind>) -> nat
    decreases ks.len(),
{
    if ks.len() == 0 {
        0
    } else if fits(ty, ks[0]) {
        1 + leading_fits(ty, ks.drop_first())
    } else {
        0
    }
}

/// The text of the type error: `expected T, got U`.
pub open spec fn type_error_text(ty: ListType, got: Seq<char>) -> Seq<char> {
    "expected "@ + list_type_text(ty) + ", got "@ + got
}

impl ListType {
    /// The name the list type shows in errors.
    pub fn name(&self) -> (res: &'static str)
        ensures
            res@ == list_type_text(*self),
    {
        match self {
            ListType::Monitor => "Monitor",
            ListType::Mode => "Mode",
            ListType::RefreshRate => "u32",
        }
    }

    /// Whether an object may go into a list of this type.
    pub fn accepts(&self, k: ItemKind) -> (res: bool)
        ensures
            res == fits(*self, k),
    {
        match (self, k) {
            (ListType::Monitor, ItemKind::Monitor) => true,
            (ListType::Mode, ItemKind::Mode) => true,
            (ListType::RefreshRate, ItemKind::U32(_)) => true,
            _ => false,
        }
    }
}

/// The type error for an object of type `got`.
fn type_error(ty: ListType, got: &String) -> (res: String)
    ensures
        res@ == type_error_text(ty, got@),
{
    let mut out: Vec<char> = Vec::new();
    push_str(&mut out, "expected ");
    push_str(&mut out, ty.name());
    push_str(&mut out, ", got ");
    push_str(&mut out, got.as_str());
    string_from_chars(out.as_slice())
}

/// How many leading kinds fit, counted from `i` on.
proof fn lemma_leading_fits_skip(ty: ListType, ks: Seq<ItemKind>, i: int)
    requires
        0 <= i <= ks.len(),
        forall|j: int| 0 <= j < i ==> fits(ty, #[trigger] ks[j]),
    ensures
        leading_fits(ty, ks) == i + leading_fits(ty, ks.skip(i)),
    decreases i,
{
    if i > 0 {
        let t = ks.drop_first();
        assert forall|j: int| 0 <= j < i - 1 implies fits(ty, #[trigger] t[j]) by {
            assert(t[j] == ks[j + 1]);
        }
        lemma_leading_fits_skip(ty, t, i - 1);
        assert(t.skip(i - 1) =~= ks.skip(i));
    } else {
        assert(ks.skip(0) =~= ks);
    }
}

/// What appending `obj` to a list of type `ty` does: one object is appended
/// when it fits; of a Python list, the items are appended in order up to
/// the first one that does not fit; an object that does not fit raises
/// `expected T, got U` with the type of the object, or of the first item
/// that does not fit.
pub fn append_plan(ty: ListType, obj: &PyValue) -> (res: AppendPlan)
    ensures
        match obj {
            PyValue::Single(item) => if fits(ty, item.kind) {
                res.appended == 1 && res.error is None
            } else {
                res.appended == 0 && (res.error matches Some(e) && e@ == type_error_text(ty, item.type_text@))
            },
            PyValue::List(items) => {
                let k = leading_fits(ty, kinds(items@));
                &&& res.appended == k
                &&& k == items@.len() ==> res.error is None
                &&& k < items@.len() ==> (res.error matches Some(e) && e@ == type_error_text(
                    ty,
                    items@[k as int].type_text@,
                ))
            },
        },
{
    match obj {
        PyValue::Single(item) => {
            if ty.accepts(item.kind) {
                AppendPlan { appended: 1, error: None }
            } else {
                AppendPlan { appended: 0, error: Some(type_error(ty, &item.type_text)) }
            }
        },
        PyValue::List(items) => list_plan(ty, items),
    }
}

/// What appending the items of a Python list does.
fn list_plan(ty: ListType, items: &Vec<PyItem>) -> (res: AppendPlan)
    ensures
        res.appended == leading_fits(ty, kinds(items@)),
        leading_fits(ty, kinds(items@)) == items@.len() ==> res.error is None,
        leading_fits(ty, kinds(items@)) < items@.len() ==> (res.error matches Some(e) && e@ == type_error_text(
            ty,
            items@[leading_fits(ty, kinds(items@)) as int].type_text@,
        )),
{
    let ghost ks = kinds(items@);
    let mut i: usize = 0;
    while i < items.len()
        invariant
            i <= items@.len(),
            ks == kinds(items@),
            forall|j: int| 0 <= j < i ==> fits(ty, #[trigger] ks[j]),
        decreases items@.len() - i,
    {
        assert(ks[i as int] == items@[i as int].kind);
        if !ty.accepts(items[i].kind) {
            proof {
                lemma_leading_fits_skip(ty, ks, i as int);
                assert(ks[i as int] == items@[i as int].kind);
                assert(ks.skip(i as int)[0] == ks[i as int]);
                assert(!fits(ty, ks.skip(i as int)[0]));
                assert(leading_fits(ty, ks.skip(i as int)) == 0);
            }
            return AppendPlan { appended: i, error: Some(type_error(ty, &items[i].type_text)) };
        }
        i = i + 1;
    }
    proof {
        lemma_leading_fits_skip(ty, ks, i as int);
        assert(ks.skip(i as int).len() == 0);
    }
    AppendPlan { appended: i, error: None }
}

} // verus!
