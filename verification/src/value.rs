//! Values and the store of lists.
//!
//! A list value is a handle into a [`Heap`]; copying the value copies the
//! handle, so every copy sees what is done to the list through any of them.

use vstd::prelude::*;
use crate::number::{is_nan, num_eq, Num, NumView, NAN_BITS};
use crate::text::{decimal_text, push_decimal, push_str};

verus! {

/// A value of the language.
#[derive(PartialEq, Debug)]
pub enum Value {
    /// A piece of text.
    String(String),
    /// A handle to a list in the heap.
    List(usize),
    /// A number.
    Number(Num),
    /// A line of the program: the jump target that a block command carries.
    Lineptr(usize),
}

/// The mathematical content of a [`Value`].
pub enum ValueView {
    Text(Seq<char>),
    List(usize),
    Number(NumView),
    Lineptr(usize),
}

impl View for Value {
    type V = ValueView;

    open spec fn view(&self) -> ValueView {
        match self {
            Value::String(s) => ValueView::Text(s@),
            Value::List(l) => ValueView::List(*l),
            Value::Number(n) => ValueView::Number(n@),
            Value::Lineptr(l) => ValueView::Lineptr(*l),
        }
    }
}

impl DeepView for Value {
    type V = ValueView;

    open spec fn deep_view(&self) -> ValueView {
        self@
    }
}

impl Clone for Value {
    fn clone(&self) -> (r: Self)
        ensures
            r@ == self@,
    {
        match self {
            Value::String(s) => Value::String(s.clone()),
            Value::List(l) => Value::List(*l),
            Value::Number(n) => Value::Number(n.clone()),
            Value::Lineptr(l) => Value::Lineptr(*l),
        }
    }
}

/// The value that stands for "no value": the number NaN.
pub open spec fn nothing() -> ValueView {
    ValueView::Number(NumView { bits: NAN_BITS, text: "NaN"@ })
}

impl Default for Value {
    fn default() -> (r: Self)
        ensures
            r@ == nothing(),
    {
        Value::Number(Num::nan())
    }
}

/// The contents of a sequence of values.
pub open spec fn views(s: Seq<Value>) -> Seq<ValueView> {
    Seq::new(s.len(), |i: int| s[i]@)
}

/// The lists of a run, each under its handle.
#[derive(Debug)]
pub struct Heap {
    lists: Vec<Vec<Value>>,
}

impl View for Heap {
    type V = Seq<Seq<ValueView>>;

    closed spec fn view(&self) -> Seq<Seq<ValueView>> {
        Seq::new(self.lists@.len(), |i: int| views(self.lists@[i]@))
    }
}

/// The items of the list under handle `l`; a handle that names no list
/// stands for the empty list.
pub open spec fn items_of(h: Seq<Seq<ValueView>>, l: usize) -> Seq<ValueView> {
    if l < h.len() {
        h[l as int]
    } else {
        Seq::empty()
    }
}

/// Copies of the given values, in order.
pub fn clone_values(items: &Vec<Value>) -> (r: Vec<Value>)
    ensures
        views(r@) == views(items@),
{
    let mut out: Vec<Value> = Vec::new();
    let mut i: usize = 0;
    while i < items.len()
        invariant
            i <= items.len(),
            out@.len() == i,
            forall|j: int| 0 <= j < i ==> out@[j]@ == items@[j]@,
        decreases items.len() - i,
    {
        out.push(items[i].clone());
        i += 1;
    }
    assert(views(out@) =~= views(items@));
    out
}

impl Heap {
    /// A heap without lists.
    pub fn new() -> (r: Heap)
        ensures
            r@ == Seq::<Seq<ValueView>>::empty(),
    {
        let r = Heap { lists: Vec::new() };
        assert(r@ =~= Seq::<Seq<ValueView>>::empty());
        r
    }

    /// The number of lists.
    pub fn len(&self) -> (n: usize)
        ensures
            n == self@.len(),
    {
        self.lists.len()
    }

    /// Stores a new list and returns its handle.
    pub fn store(&mut self, items: Vec<Value>) -> (l: usize)
        ensures
            l == old(self)@.len(),
            final(self)@ == old(self)@.push(views(items@)),
    {
        let l = self.lists.len();
        self.lists.push(items);
        assert(self@ =~= old(self)@.push(views(items@)));
        l
    }

    /// The list under a handle, if the handle names one.
    pub fn get(&self, l: usize) -> (r: Option<&Vec<Value>>)
        ensures
            r is Some == (l < self@.len()),
            r matches Some(items) ==> views(items@) == self@[l as int],
    {
        if l < self.lists.len() {
            Some(&self.lists[l])
        } else {
            None
        }
    }

    /// The length of the list under `l`.
    pub fn length(&self, l: usize) -> (n: usize)
        requires
            l < self@.len(),
        ensures
            n == self@[l as int].len(),
    {
        self.lists[l].len()
    }

    /// Appends a value to the list under `l`.
    pub fn push(&mut self, l: usize, v: Value)
        requires
            l < old(self)@.len(),
        ensures
            final(self)@ == old(self)@.update(l as int, old(self)@[l as int].push(v@)),
    {
        self.lists[l].push(v);
        assert(self@[l as int] =~= old(self)@[l as int].push(v@));
        assert(self@ =~= old(self)@.update(l as int, old(self)@[l as int].push(v@)));
    }

    /// Takes the last value off the list under `l`, if it has one.
    pub fn pop(&mut self, l: usize) -> (r: Option<Value>)
        requires
            l < old(self)@.len(),
        ensures
            old(self)@[l as int].len() == 0 ==> r is None && final(self)@ == old(self)@,
            old(self)@[l as int].len() > 0 ==> (r matches Some(v) && v@ == old(self)@[l as int].last()
                && final(self)@ == old(self)@.update(l as int, old(self)@[l as int].drop_last())),
    {
        let r = self.lists[l].pop();
        proof {
            if old(self)@[l as int].len() == 0 {
                assert(self@ =~= old(self)@);
            } else {
                assert(self@[l as int] =~= old(self)@[l as int].drop_last());
                assert(self@ =~= old(self)@.update(l as int, old(self)@[l as int].drop_last()));
            }
        }
        r
    }

    /// Puts a value into the list under `l`, before position `index`.
    pub fn insert(&mut self, l: usize, index: usize, v: Value)
        requires
            l < old(self)@.len(),
            index <= old(self)@[l as int].len(),
        ensures
            final(self)@ == old(self)@.update(l as int, old(self)@[l as int].insert(index as int, v@)),
    {
        self.lists[l].insert(index, v);
        assert(self@[l as int] =~= old(self)@[l as int].insert(index as int, v@));
        assert(self@ =~= old(self)@.update(l as int, old(self)@[l as int].insert(index as int, v@)));
    }

    /// Takes the value at position `index` out of the list under `l`.
    pub fn remove(&mut self, l: usize, index: usize) -> (r: Value)
        requires
            l < old(self)@.len(),
            index < old(self)@[l as int].len(),
        ensures
            r@ == old(self)@[l as int][index as int],
            final(self)@ == old(self)@.update(l as int, old(self)@[l as int].remove(index as int)),
    {
        let r = self.lists[l].remove(index);
        assert(self@[l as int] =~= old(self)@[l as int].remove(index as int));
        assert(self@ =~= old(self)@.update(l as int, old(self)@[l as int].remove(index as int)));
        r
    }

    /// Overwrites the value at position `index` of the list under `l`.
    pub fn replace(&mut self, l: usize, index: usize, v: Value)
        requires
            l < old(self)@.len(),
            index < old(self)@[l as int].len(),
        ensures
            final(self)@ == old(self)@.update(l as int, old(self)@[l as int].update(index as int, v@)),
    {
        self.lists[l].set(index, v);
        assert(self@[l as int] =~= old(self)@[l as int].update(index as int, v@));
        assert(self@ =~= old(self)@.update(l as int, old(self)@[l as int].update(index as int, v@)));
    }
}

/// How many lists deep the text, the comparison and the copy of a value
/// look before they give up. This is a limit of the machine, not of the
/// language: a list can hold itself, so lists nest without end, and each
/// list that is followed into takes room on the stack. The limit is set so
/// that the deepest descent fits the stack of a thread of two megabytes.
pub const DEPTH_LIMIT: usize = 5000;

/// The text of a value: what printing it shows. A list shows its items
/// between parentheses, separated by commas. `None` when lists are nested
/// deeper than `depth`.
pub open spec fn text_of(h: Seq<Seq<ValueView>>, v: ValueView, depth: nat) -> Option<Seq<char>>
    decreases depth, 0nat,
{
    match v {
        ValueView::Text(s) => Some(s),
        ValueView::Number(n) => Some(n.text),
        ValueView::Lineptr(l) => Some("(line "@ + decimal_text(l as nat) + ")"@),
        ValueView::List(l) => if depth == 0 {
            None
        } else {
            match joined(h, items_of(h, l), ","@, (depth - 1) as nat) {
                Some(t) => Some("("@ + t + ")"@),
                None => None,
            }
        },
    }
}

/// The texts of the items, with `sep` between each two.
pub open spec fn joined(
    h: Seq<Seq<ValueView>>,
    items: Seq<ValueView>,
    sep: Seq<char>,
    depth: nat,
) -> Option<Seq<char>>
    decreases depth, items.len() + 1,
{
    if items.len() == 0 {
        Some(Seq::empty())
    } else {
        match (joined(h, items.drop_last(), sep, depth), text_of(h, items.last(), depth)) {
            (Some(a), Some(b)) => Some(
                if items.len() == 1 {
                    b
                } else {
                    a + sep + b
                },
            ),
            _ => None,
        }
    }
}

/// Equality of two values: two lists are equal when they have the same
/// length and equal items, two numbers when they are numerically equal, and
/// any other pair when their texts are the same. `None` when lists are
/// nested deeper than `depth`.
pub open spec fn deep_eq(h: Seq<Seq<ValueView>>, a: ValueView, b: ValueView, depth: nat) -> Option<
    bool,
>
    decreases depth, 0nat,
{
    match (a, b) {
        (ValueView::List(l), ValueView::List(m)) => if depth == 0 {
            None
        } else if items_of(h, l).len() != items_of(h, m).len() {
            Some(false)
        } else {
            pairs_eq(h, items_of(h, l), items_of(h, m), (depth - 1) as nat)
        },
        (ValueView::Number(x), ValueView::Number(y)) => Some(num_eq(x.bits, y.bits)),
        _ => match (text_of(h, a, depth), text_of(h, b, depth)) {
            (Some(s), Some(t)) => Some(s == t),
            _ => None,
        },
    }
}

/// Item by item equality of two sequences, from the front, stopping at the
/// first pair that differs.
pub open spec fn pairs_eq(
    h: Seq<Seq<ValueView>>,
    xs: Seq<ValueView>,
    ys: Seq<ValueView>,
    depth: nat,
) -> Option<bool>
    decreases depth, xs.len() + 1,
{
    if xs.len() == 0 || ys.len() == 0 {
        Some(true)
    } else {
        match deep_eq(h, xs[0], ys[0], depth) {
            Some(true) => pairs_eq(h, xs.drop_first(), ys.drop_first(), depth),
            other => other,
        }
    }
}

proof fn lemma_joined_none(
    h: Seq<Seq<ValueView>>,
    items: Seq<ValueView>,
    sep: Seq<char>,
    depth: nat,
    k: int,
)
    requires
        0 <= k <= items.len(),
        joined(h, items.take(k), sep, depth) is None,
    ensures
        joined(h, items, sep, depth) is None,
    decreases items.len() - k,
{
    if k < items.len() {
        assert(items.take(k + 1).drop_last() =~= items.take(k));
        lemma_joined_none(h, items, sep, depth, k + 1);
    } else {
        assert(items.take(k) =~= items);
    }
}

impl Heap {
    /// The text of a value, unless lists are nested deeper than `depth`.
    pub fn text(&self, v: &Value, depth: usize) -> (r: Option<String>)
        ensures
            match r {
                Some(s) => text_of(self@, v@, depth as nat) == Some(s@),
                None => text_of(self@, v@, depth as nat) is None,
            },
        decreases depth, 0nat,
    {
        match v {
            Value::String(s) => Some(s.clone()),
            Value::Number(n) => Some(n.text.clone()),
            Value::Lineptr(l) => {
                let mut out = "(line ".to_owned();
                push_decimal(&mut out, *l as u64);
                push_str(&mut out, ")");
                Some(out)
            },
            Value::List(l) => {
                if depth == 0 {
                    return None;
                }
                let empty: Vec<Value> = Vec::new();
                assert(views(empty@) =~= Seq::<ValueView>::empty());
                let items = match self.get(*l) {
                    Some(items) => items,
                    None => &empty,
                };
                match self.join(items, ",", depth - 1) {
                    None => None,
                    Some(t) => {
                        let mut out = "(".to_owned();
                        push_str(&mut out, t.as_str());
                        push_str(&mut out, ")");
                        Some(out)
                    },
                }
            },
        }
    }

    /// The texts of the values with `sep` between each two, unless lists
    /// are nested deeper than `depth`.
    #[verifier::loop_isolation(false)]
    pub fn join(&self, items: &Vec<Value>, sep: &str, depth: usize) -> (r: Option<String>)
        ensures
            match r {
                Some(s) => joined(self@, views(items@), sep@, depth as nat) == Some(s@),
                None => joined(self@, views(items@), sep@, depth as nat) is None,
            },
        decreases depth, 1nat,
    {
        let mut out = String::new();
        let ghost vs = views(items@);
        let mut i: usize = 0;
        assert(vs.take(0) =~= Seq::<ValueView>::empty());
        while i < items.len()
            invariant
                i <= items.len(),
                joined(self@, vs.take(i as int), sep@, depth as nat) == Some(out@),
            decreases items.len() - i,
        {
            proof {
                assert(vs.take(i + 1).drop_last() =~= vs.take(i as int));
                assert(vs.take(i + 1).last() == items@[i as int]@);
            }
            match self.text(&items[i], depth) {
                None => {
                    proof {
                        lemma_joined_none(self@, vs, sep@, depth as nat, i + 1);
                    }
                    return None;
                },
                Some(t) => {
                    if i > 0 {
                        push_str(&mut out, sep);
                    } else {
                        assert(out@ =~= Seq::<char>::empty());
                    }
                    push_str(&mut out, t.as_str());
                },
            }
            i += 1;
        }
        assert(vs.take(items.len() as int) =~= vs);
        Some(out)
    }

    /// Equality of two values, unless lists are nested deeper than `depth`.
    #[verifier::loop_isolation(false)]
    pub fn equal(&self, a: &Value, b: &Value, depth: usize) -> (r: Option<bool>)
        ensures
            r == deep_eq(self@, a@, b@, depth as nat),
        decreases depth,
    {
        match (a, b) {
            (Value::List(l), Value::List(m)) => {
                if depth == 0 {
                    return None;
                }
                let empty: Vec<Value> = Vec::new();
                assert(views(empty@) =~= Seq::<ValueView>::empty());
                let xs = match self.get(*l) {
                    Some(items) => items,
                    None => &empty,
                };
                let ys = match self.get(*m) {
                    Some(items) => items,
                    None => &empty,
                };
                if xs.len() != ys.len() {
                    return Some(false);
                }
                let ghost vx = views(xs@);
                let ghost vy = views(ys@);
                let mut i: usize = 0;
                assert(vx.skip(0) =~= vx);
                assert(vy.skip(0) =~= vy);
                while i < xs.len()
                    invariant
                        i <= xs.len(),
                        xs.len() == ys.len(),
                        depth > 0,
                        vx == views(xs@),
                        vy == views(ys@),
                        pairs_eq(self@, vx, vy, (depth - 1) as nat) == pairs_eq(
                            self@,
                            vx.skip(i as int),
                            vy.skip(i as int),
                            (depth - 1) as nat,
                        ),
                    decreases xs.len() - i,
                {
                    proof {
                        assert(vx.skip(i as int).drop_first() =~= vx.skip(i + 1));
                        assert(vy.skip(i as int).drop_first() =~= vy.skip(i + 1));
                    }
                    match self.equal(&xs[i], &ys[i], depth - 1) {
                        Some(true) => {},
                        other => {
                            return other;
                        },
                    }
                    i += 1;
                }
                Some(true)
            },
            (Value::Number(x), Value::Number(y)) => Some(x.equals(y)),
            _ => {
                let s = self.text(a, depth);
                let t = self.text(b, depth);
                match (s, t) {
                    (Some(s), Some(t)) => Some(s == t),
                    _ => None,
                }
            },
        }
    }
}

/// The copy of a value: a list is copied item by item into a new list,
/// lists inside it likewise, so that the copy shares no list with the value
/// it was made from. Gives the heap with the new lists, and the copy, or
/// `None` in its place when lists are nested deeper than `depth`.
pub open spec fn copy_of(h: Seq<Seq<ValueView>>, v: ValueView, depth: nat) -> (
    Seq<Seq<ValueView>>,
    Option<ValueView>,
)
    decreases depth, 0nat,
{
    match v {
        ValueView::List(l) => if depth == 0 {
            (h, None)
        } else {
            match copies_of(h, items_of(h, l), (depth - 1) as nat) {
                (h2, Some(items)) => (h2.push(items), Some(ValueView::List(h2.len() as usize))),
                (h2, None) => (h2, None),
            }
        },
        other => (h, Some(other)),
    }
}

/// The copies of the items, made in order.
pub open spec fn copies_of(h: Seq<Seq<ValueView>>, items: Seq<ValueView>, depth: nat) -> (
    Seq<Seq<ValueView>>,
    Option<Seq<ValueView>>,
)
    decreases depth, items.len() + 1,
{
    if items.len() == 0 {
        (h, Some(Seq::empty()))
    } else {
        match copies_of(h, items.drop_last(), depth) {
            (h1, None) => (h1, None),
            (h1, Some(copies)) => match copy_of(h1, items.last(), depth) {
                (h2, None) => (h2, None),
                (h2, Some(c)) => (h2, Some(copies.push(c))),
            },
        }
    }
}

proof fn lemma_copies_none(h: Seq<Seq<ValueView>>, items: Seq<ValueView>, depth: nat, k: int)
    requires
        0 <= k <= items.len(),
        copies_of(h, items.take(k), depth).1 is None,
    ensures
        copies_of(h, items, depth) == copies_of(h, items.take(k), depth),
    decreases items.len() - k,
{
    if k < items.len() {
        assert(items.take(k + 1).drop_last() =~= items.take(k));
        lemma_copies_none(h, items, depth, k + 1);
    } else {
        assert(items.take(k) =~= items);
    }
}

impl Heap {
    /// Copies a value, lists and all, unless lists are nested deeper than
    /// `depth`. Lists that were there stay as they were.
    pub fn copy(&mut self, v: &Value, depth: usize) -> (r: Option<Value>)
        ensures
            copy_of(old(self)@, v@, depth as nat) == (
                final(self)@,
                match r {
                    Some(c) => Some(c@),
                    None => None,
                },
            ),
        decreases depth, 0nat,
    {
        match v {
            Value::List(l) => {
                if depth == 0 {
                    return None;
                }
                let items = match self.get(*l) {
                    Some(items) => clone_values(items),
                    None => Vec::new(),
                };
                assert(views(items@) =~= items_of(self@, *l));
                match self.copy_all(&items, depth - 1) {
                    None => None,
                    Some(copies) => {
                        let r = self.store(copies);
                        Some(Value::List(r))
                    },
                }
            },
            other => Some(other.clone()),
        }
    }

    /// Copies the values in order, unless lists are nested deeper than
    /// `depth`.
    #[verifier::loop_isolation(false)]
    pub fn copy_all(&mut self, items: &Vec<Value>, depth: usize) -> (r: Option<Vec<Value>>)
        ensures
            copies_of(old(self)@, views(items@), depth as nat) == (
                final(self)@,
                match r {
                    Some(cs) => Some(views(cs@)),
                    None => None,
                },
            ),
        decreases depth, 1nat,
    {
        let mut out: Vec<Value> = Vec::new();
        let ghost vs = views(items@);
        let mut i: usize = 0;
        assert(vs.take(0) =~= Seq::<ValueView>::empty());
        assert(views(out@) =~= Seq::<ValueView>::empty());
        while i < items.len()
            invariant
                i <= items.len(),
                copies_of(old(self)@, vs.take(i as int), depth as nat) == (
                    self@,
                    Some(views(out@)),
                ),
            decreases items.len() - i,
        {
            proof {
                assert(vs.take(i + 1).drop_last() =~= vs.take(i as int));
                assert(vs.take(i + 1).last() == items@[i as int]@);
            }
            let ghost before = views(out@);
            match self.copy(&items[i], depth) {
                None => {
                    proof {
                        lemma_copies_none(old(self)@, vs, depth as nat, i + 1);
                    }
                    return None;
                },
                Some(c) => {
                    out.push(c);
                    assert(views(out@) =~= before.push(c@));
                },
            }
            i += 1;
        }
        assert(vs.take(items.len() as int) =~= vs);
        Some(out)
    }
}

/// The sequences are equal item by item exactly when every pair of items,
/// as far as both sequences go, is equal.
pub proof fn lemma_pairs_equal(
    h: Seq<Seq<ValueView>>,
    xs: Seq<ValueView>,
    ys: Seq<ValueView>,
    depth: nat,
)
    requires
        xs.len() == ys.len(),
    ensures
        pairs_eq(h, xs, ys, depth) == Some(true) <==> forall|i: int|
            0 <= i < xs.len() ==> #[trigger] deep_eq(h, xs[i], ys[i], depth) == Some(true),
    decreases xs.len(),
{
    if xs.len() > 0 {
        let xr = xs.drop_first();
        let yr = ys.drop_first();
        lemma_pairs_equal(h, xr, yr, depth);
        if pairs_eq(h, xs, ys, depth) == Some(true) {
            assert forall|i: int| 0 <= i < xs.len() implies #[trigger] deep_eq(
                h,
                xs[i],
                ys[i],
                depth,
            ) == Some(true) by {
                if i > 0 {
                    assert(xs[i] == xr[i - 1]);
                    assert(ys[i] == yr[i - 1]);
                    assert(deep_eq(h, xr[i - 1], yr[i - 1], depth) == Some(true));
                }
            }
        }
        if forall|i: int|
            0 <= i < xs.len() ==> #[trigger] deep_eq(h, xs[i], ys[i], depth) == Some(true) {
            assert(deep_eq(h, xs[0], ys[0], depth) == Some(true));
            assert forall|i: int| 0 <= i < xr.len() implies #[trigger] deep_eq(
                h,
                xr[i],
                yr[i],
                depth,
            ) == Some(true) by {
                assert(xr[i] == xs[i + 1]);
                assert(yr[i] == ys[i + 1]);
                assert(deep_eq(h, xs[i + 1], ys[i + 1], depth) == Some(true));
            }
        }
    }
}

/// What equality means. Two lists are equal exactly when they have the same
/// length and each item of the one equals the item of the other in its
/// place. Two numbers are equal exactly when they are numerically equal.
/// Any other two values are equal exactly when their texts are the same.
pub proof fn lemma_equality(h: Seq<Seq<ValueView>>, a: ValueView, b: ValueView, depth: nat)
    ensures
        a is List && b is List ==> (deep_eq(h, a, b, depth) == Some(true) <==> {
            let xs = items_of(h, a->List_0);
            let ys = items_of(h, b->List_0);
            &&& depth > 0
            &&& xs.len() == ys.len()
            &&& forall|i: int|
                0 <= i < xs.len() ==> #[trigger] deep_eq(h, xs[i], ys[i], (depth - 1) as nat)
                    == Some(true)
        }),
        a is Number && b is Number ==> deep_eq(h, a, b, depth) == Some(
            num_eq(a->Number_0.bits, b->Number_0.bits),
        ),
        !(a is List && b is List) && !(a is Number && b is Number) ==> (deep_eq(h, a, b, depth)
            == Some(true) <==> text_of(h, a, depth) is Some && text_of(h, a, depth) == text_of(
            h,
            b,
            depth,
        )),
{
    if a is List && b is List && depth > 0 {
        let xs = items_of(h, a->List_0);
        let ys = items_of(h, b->List_0);
        if xs.len() == ys.len() {
            lemma_pairs_equal(h, xs, ys, (depth - 1) as nat);
        }
    }
}

/// The heap `h2` holds every list of `h` as it was, and maybe more.
pub open spec fn extends(h: Seq<Seq<ValueView>>, h2: Seq<Seq<ValueView>>) -> bool {
    h.len() <= h2.len() && forall|k: int| 0 <= k < h.len() ==> #[trigger] h2[k] == h[k]
}

/// The value shares no list with the lists under handles below `base`:
/// if it is a list, its handle is not below `base`, and so on for its items,
/// down to `depth` lists deep.
pub open spec fn apart(h: Seq<Seq<ValueView>>, v: ValueView, base: nat, depth: nat) -> bool
    decreases depth, 0nat,
{
    match v {
        ValueView::List(l) => depth > 0 && base <= l < h.len() && all_apart(
            h,
            h[l as int],
            base,
            (depth - 1) as nat,
        ),
        _ => true,
    }
}

/// Each of the items shares no list with the lists under handles below
/// `base`.
pub open spec fn all_apart(h: Seq<Seq<ValueView>>, items: Seq<ValueView>, base: nat, depth: nat) -> bool
    decreases depth, items.len() + 1,
{
    items.len() == 0 || (all_apart(h, items.drop_last(), base, depth) && apart(
        h,
        items.last(),
        base,
        depth,
    ))
}

proof fn lemma_apart_extends(
    h: Seq<Seq<ValueView>>,
    h2: Seq<Seq<ValueView>>,
    v: ValueView,
    base: nat,
    b2: nat,
    depth: nat,
)
    requires
        extends(h, h2),
        b2 <= base,
        apart(h, v, base, depth),
    ensures
        apart(h2, v, b2, depth),
    decreases depth, 0nat,
{
    match v {
        ValueView::List(l) => {
            assert(h2[l as int] == h[l as int]);
            lemma_all_apart_extends(h, h2, h[l as int], base, b2, (depth - 1) as nat);
        },
        _ => {},
    }
}

proof fn lemma_all_apart_extends(
    h: Seq<Seq<ValueView>>,
    h2: Seq<Seq<ValueView>>,
    items: Seq<ValueView>,
    base: nat,
    b2: nat,
    depth: nat,
)
    requires
        extends(h, h2),
        b2 <= base,
        all_apart(h, items, base, depth),
    ensures
        all_apart(h2, items, b2, depth),
    decreases depth, items.len() + 1,
{
    if items.len() > 0 {
        lemma_all_apart_extends(h, h2, items.drop_last(), base, b2, depth);
        lemma_apart_extends(h, h2, items.last(), base, b2, depth);
    }
}

proof fn lemma_copy_extends(h: Seq<Seq<ValueView>>, v: ValueView, depth: nat)
    ensures
        extends(h, copy_of(h, v, depth).0),
    decreases depth, 0nat,
{
    match v {
        ValueView::List(l) => {
            if depth > 0 {
                lemma_copies_extend(h, items_of(h, l), (depth - 1) as nat);
            }
        },
        _ => {},
    }
}

proof fn lemma_copies_extend(h: Seq<Seq<ValueView>>, items: Seq<ValueView>, depth: nat)
    ensures
        extends(h, copies_of(h, items, depth).0),
        copies_of(h, items, depth).1 matches Some(cs) ==> cs.len() == items.len(),
    decreases depth, items.len() + 1,
{
    if items.len() > 0 {
        lemma_copies_extend(h, items.drop_last(), depth);
        let (h1, r1) = copies_of(h, items.drop_last(), depth);
        if r1 is Some {
            lemma_copy_extends(h1, items.last(), depth);
        }
    }
}

proof fn lemma_copy_apart(h: Seq<Seq<ValueView>>, v: ValueView, depth: nat)
    requires
        copy_of(h, v, depth).0.len() <= usize::MAX,
    ensures
        copy_of(h, v, depth).1 matches Some(c) ==> apart(copy_of(h, v, depth).0, c, h.len(), depth),
    decreases depth, 0nat,
{
    match v {
        ValueView::List(l) => {
            if depth > 0 {
                let items = items_of(h, l);
                let d = (depth - 1) as nat;
                let (h2, r) = copies_of(h, items, d);
                lemma_copies_extend(h, items, d);
                match r {
                    Some(copies) => {
                        let h3 = h2.push(copies);
                        assert(copy_of(h, v, depth).0 == h3);
                        lemma_copies_apart(h, items, d);
                        assert(extends(h2, h3));
                        assert(h3[h2.len() as int] == copies);
                        lemma_all_apart_extends(h2, h3, copies, h.len(), h.len(), d);
                    },
                    None => {},
                }
            }
        },
        _ => {},
    }
}

proof fn lemma_copies_apart(h: Seq<Seq<ValueView>>, items: Seq<ValueView>, depth: nat)
    requires
        copies_of(h, items, depth).0.len() <= usize::MAX,
    ensures
        copies_of(h, items, depth).1 matches Some(cs) ==> all_apart(
            copies_of(h, items, depth).0,
            cs,
            h.len(),
            depth,
        ),
    decreases depth, items.len() + 1,
{
    if items.len() > 0 {
        let (h1, r1) = copies_of(h, items.drop_last(), depth);
        lemma_copies_extend(h, items.drop_last(), depth);
        match r1 {
            Some(copies) => {
                let (h2, r2) = copy_of(h1, items.last(), depth);
                lemma_copy_extends(h1, items.last(), depth);
                assert(copies_of(h, items, depth).0 == h2);
                lemma_copies_apart(h, items.drop_last(), depth);
                lemma_copy_apart(h1, items.last(), depth);
                match r2 {
                    Some(c) => {
                        let cs = copies.push(c);
                        assert(cs.drop_last() =~= copies);
                        lemma_all_apart_extends(h1, h2, copies, h.len(), h.len(), depth);
                        lemma_apart_extends(h2, h2, c, h1.len(), h.len(), depth);
                    },
                    None => {},
                }
            },
            None => {},
        }
    }
}

/// Where all items stand apart, each of them does.
pub proof fn lemma_each_apart(
    h: Seq<Seq<ValueView>>,
    items: Seq<ValueView>,
    base: nat,
    depth: nat,
    i: int,
)
    requires
        all_apart(h, items, base, depth),
        0 <= i < items.len(),
    ensures
        apart(h, items[i], base, depth),
    decreases items.len(),
{
    if i < items.len() - 1 {
        lemma_each_apart(h, items.drop_last(), base, depth, i);
    }
}

/// A copy stands apart from what it was copied from. The lists that were
/// there stay as they were; the copy, if it is a list, is a list that was
/// not there before, and so is every list inside it; so whatever is done to
/// a list of the copy leaves every earlier list untouched.
pub proof fn lemma_copy_is_independent(h: Seq<Seq<ValueView>>, v: ValueView, depth: nat)
    requires
        copy_of(h, v, depth).0.len() <= usize::MAX,
    ensures
        extends(h, copy_of(h, v, depth).0),
        copy_of(h, v, depth).1 matches Some(c) ==> apart(copy_of(h, v, depth).0, c, h.len(), depth),
        forall|k: int, l: int, items: Seq<ValueView>|
            0 <= k < h.len() <= l < copy_of(h, v, depth).0.len() ==> #[trigger] copy_of(
                h,
                v,
                depth,
            ).0.update(l, items)[k] == h[k],
{
    lemma_copy_extends(h, v, depth);
    lemma_copy_apart(h, v, depth);
}

/// The value can be followed to its end and equals itself: if it is a
/// list, it is a list of the heap, nested no deeper than `depth`, and so are
/// the lists in it; and no number in it is a NaN, which equals nothing.
pub open spec fn sound(h: Seq<Seq<ValueView>>, v: ValueView, depth: nat) -> bool
    decreases depth, 0nat,
{
    match v {
        ValueView::List(l) => depth > 0 && l < h.len() && all_sound(
            h,
            h[l as int],
            (depth - 1) as nat,
        ),
        ValueView::Number(n) => !is_nan(n.bits),
        _ => true,
    }
}

/// Each of the items is sound.
pub open spec fn all_sound(h: Seq<Seq<ValueView>>, items: Seq<ValueView>, depth: nat) -> bool
    decreases depth, items.len() + 1,
{
    items.len() == 0 || (all_sound(h, items.drop_last(), depth) && sound(h, items.last(), depth))
}

proof fn lemma_sound_extends(
    h: Seq<Seq<ValueView>>,
    h2: Seq<Seq<ValueView>>,
    v: ValueView,
    depth: nat,
)
    requires
        extends(h, h2),
        sound(h, v, depth),
    ensures
        sound(h2, v, depth),
    decreases depth, 0nat,
{
    match v {
        ValueView::List(l) => {
            assert(h2[l as int] == h[l as int]);
            lemma_all_sound_extends(h, h2, h[l as int], (depth - 1) as nat);
        },
        _ => {},
    }
}

proof fn lemma_all_sound_extends(
    h: Seq<Seq<ValueView>>,
    h2: Seq<Seq<ValueView>>,
    items: Seq<ValueView>,
    depth: nat,
)
    requires
        extends(h, h2),
        all_sound(h, items, depth),
    ensures
        all_sound(h2, items, depth),
    decreases depth, items.len() + 1,
{
    if items.len() > 0 {
        lemma_all_sound_extends(h, h2, items.drop_last(), depth);
        lemma_sound_extends(h, h2, items.last(), depth);
    }
}

proof fn lemma_extends_twice(
    a: Seq<Seq<ValueView>>,
    b: Seq<Seq<ValueView>>,
    c: Seq<Seq<ValueView>>,
)
    requires
        extends(a, b),
        extends(b, c),
    ensures
        extends(a, c),
{
    assert forall|k: int| 0 <= k < a.len() implies #[trigger] c[k] == a[k] by {
        assert(b[k] == a[k]);
        assert(c[k] == b[k]);
    }
}

proof fn lemma_copy_equal(
    h: Seq<Seq<ValueView>>,
    v: ValueView,
    depth: nat,
    hf: Seq<Seq<ValueView>>,
)
    requires
        sound(h, v, depth),
        extends(copy_of(h, v, depth).0, hf),
        hf.len() <= usize::MAX,
    ensures
        copy_of(h, v, depth).1 matches Some(c) && deep_eq(hf, v, c, depth) == Some(true),
    decreases depth, 0nat,
{
    match v {
        ValueView::List(l) => {
            let d = (depth - 1) as nat;
            let items = h[l as int];
            assert(items_of(h, l) == items);
            let (h2, r) = copies_of(h, items, d);
            lemma_copies_extend(h, items, d);
            let grown = match r {
                Some(copies) => h2.push(copies),
                None => h2,
            };
            assert(extends(h2, grown));
            assert(copy_of(h, v, depth).0 == grown);
            lemma_extends_twice(h2, grown, hf);
            lemma_copies_equal(h, items, d, hf);
            let copies = r->0;
            let handle = h2.len() as usize;
            assert(handle == h2.len());
            assert(hf[h2.len() as int] == grown[h2.len() as int]);
            assert(items_of(hf, handle) == copies);
            lemma_extends_twice(h, h2, hf);
            assert(hf[l as int] == h[l as int]);
            assert(items_of(hf, l) == items);
            lemma_pairs_equal(hf, items, copies, d);
        },
        _ => {},
    }
}

proof fn lemma_copies_equal(
    h: Seq<Seq<ValueView>>,
    items: Seq<ValueView>,
    depth: nat,
    hf: Seq<Seq<ValueView>>,
)
    requires
        all_sound(h, items, depth),
        extends(copies_of(h, items, depth).0, hf),
        hf.len() <= usize::MAX,
    ensures
        copies_of(h, items, depth).1 matches Some(cs) && cs.len() == items.len() && forall|i: int|
            0 <= i < items.len() ==> #[trigger] deep_eq(hf, items[i], cs[i], depth) == Some(true),
    decreases depth, items.len() + 1,
{
    if items.len() > 0 {
        let init = items.drop_last();
        let last = items.last();
        let (h1, r1) = copies_of(h, init, depth);
        lemma_copies_extend(h, init, depth);
        lemma_copy_extends(h1, last, depth);
        let (h2, r2) = copy_of(h1, last, depth);
        let end = match r1 {
            Some(_) => h2,
            None => h1,
        };
        assert(copies_of(h, items, depth).0 == end);
        assert(extends(h1, end));
        lemma_extends_twice(h1, end, hf);
        lemma_copies_equal(h, init, depth, hf);
        let done = r1->0;
        lemma_sound_extends(h, h1, last, depth);
        lemma_copy_equal(h1, last, depth, hf);
        let c = r2->0;
        let cs = done.push(c);
        assert forall|i: int| 0 <= i < items.len() implies #[trigger] deep_eq(
            hf,
            items[i],
            cs[i],
            depth,
        ) == Some(true) by {
            if i < init.len() {
                assert(items[i] == init[i]);
                assert(cs[i] == done[i]);
                assert(deep_eq(hf, init[i], done[i], depth) == Some(true));
            }
        }
    }
}

/// A copy equals what it was copied from. If the value can be followed to
/// its end within `depth` lists and holds no NaN, the copy succeeds, and in
/// the heap after the copy the value and its copy are equal, list by list
/// and item by item.
pub proof fn lemma_copy_equals_its_source(h: Seq<Seq<ValueView>>, v: ValueView, depth: nat)
    requires
        sound(h, v, depth),
        copy_of(h, v, depth).0.len() <= usize::MAX,
    ensures
        copy_of(h, v, depth).1 matches Some(c) && deep_eq(copy_of(h, v, depth).0, v, c, depth)
            == Some(true),
{
    lemma_copy_equal(h, v, depth, copy_of(h, v, depth).0);
}

} // verus!
