use std::cmp::Ordering;
use vstd::prelude::*;
use vstd::std_specs::cmp::{PartialEqSpecImpl, PartialOrdSpecImpl};
use vstd::std_specs::convert::TryFromSpecImpl;

use crate::error::Error;

use crate::text::{bool_text, decimal, push_bool, push_decimal};

verus! {

/// What the machine computes with.
#[derive(Debug)]
pub enum Value {
    Num(i64),
    Arr(Vec<Value>),
    Bool(bool),
}

/// The mathematical content of a `Value`.
pub enum Content {
    Num(int),
    Arr(Seq<Content>),
    Bool(bool),
}

/// How two values of one kind stand to each other.
#[derive(Clone, Copy, Debug, PartialEq, Eq, Structural)]
pub enum Order {
    Less,
    Equal,
    Greater,
}

impl View for Value {
    type V = Content;

    open spec fn view(&self) -> Content
        decreases self,
    {
        match self {
            Value::Num(n) => Content::Num(*n as int),
            Value::Arr(a) => Content::Arr(contents(a@)),
            Value::Bool(b) => Content::Bool(*b),
        }
    }
}

/// The contents of the values of `s`, one by one.
pub open spec fn contents(s: Seq<Value>) -> Seq<Content>
    decreases s,
{
    Seq::new(
        s.len(),
        |i: int|
            if 0 <= i < s.len() {
                s[i]@
            } else {
                Content::Bool(false)
            },
    )
}

/// How the integers `a` and `b` stand to each other.
pub open spec fn order_of(a: int, b: int) -> Order {
    if a < b {
        Order::Less
    } else if a == b {
        Order::Equal
    } else {
        Order::Greater
    }
}

/// Lexicographic order: the first pair of items that is not equal decides,
/// and a pair that cannot be compared makes the whole incomparable; where
/// one sequence is a prefix of the other, the shorter one is less.
pub open spec fn compare_lists(a: Seq<Content>, b: Seq<Content>) -> Option<Order>
    decreases a,
{
    if a.len() == 0 || b.len() == 0 {
        Some(order_of(a.len() as int, b.len() as int))
    } else {
        match a[0].compare(b[0]) {
            Some(Order::Equal) => compare_lists(a.drop_first(), b.drop_first()),
            other => other,
        }
    }
}

/// The items of `a`, each in its debug form, separated by a comma and a
/// space.
pub open spec fn joined(a: Seq<Content>) -> Seq<char>
    decreases a,
{
    if a.len() == 0 {
        Seq::empty()
    } else if a.len() == 1 {
        a[0].debug_text()
    } else {
        joined(a.drop_last()) + seq![',', ' '] + a.last().debug_text()
    }
}

/// The items of `a`, each as character data, one after the other.
pub open spec fn spelled(a: Seq<Content>) -> Seq<char>
    decreases a,
{
    if a.len() == 0 {
        Seq::empty()
    } else {
        spelled(a.drop_last()) + a.last().char_text()
    }
}

impl Content {
    /// The name of the kind of value.
    pub open spec fn kind_name(self) -> &'static str {
        match self {
            Content::Num(_) => "number",
            Content::Arr(_) => "array",
            Content::Bool(_) => "bool",
        }
    }

    /// Two values are of the same kind.
    pub open spec fn same_type(self, other: Content) -> bool {
        match (self, other) {
            (Content::Num(_), Content::Num(_)) => true,
            (Content::Arr(_), Content::Arr(_)) => true,
            (Content::Bool(_), Content::Bool(_)) => true,
            _ => false,
        }
    }

    /// A boolean counts as itself; numbers and arrays always count as true.
    pub open spec fn truthy(self) -> bool {
        match self {
            Content::Bool(b) => b,
            _ => true,
        }
    }

    /// The order of two values of the same kind: numbers by size, `false`
    /// before `true`, arrays lexicographically. Values of different kinds
    /// cannot be compared.
    pub open spec fn compare(self, other: Content) -> Option<Order>
        decreases self,
    {
        match (self, other) {
            (Content::Num(a), Content::Num(b)) => Some(order_of(a, b)),
            (Content::Bool(a), Content::Bool(b)) => Some(
                if a == b {
                    Order::Equal
                } else if b {
                    Order::Less
                } else {
                    Order::Greater
                },
            ),
            (Content::Arr(a), Content::Arr(b)) => compare_lists(a, b),
            _ => None,
        }
    }

    /// The form in which a value appears inside a printed array.
    pub open spec fn debug_text(self) -> Seq<char>
        decreases self,
    {
        match self {
            Content::Num(n) => seq!['N', 'u', 'm', '('] + decimal(n) + seq![')'],
            Content::Arr(a) => seq!['A', 'r', 'r', '(', '['] + joined(a) + seq![']', ')'],
            Content::Bool(b) => seq!['B', 'o', 'o', 'l', '('] + bool_text(b) + seq![')'],
        }
    }

    /// What `Print` writes: a number in decimal, a boolean as `true` or
    /// `false`, an array as the list of its items in debug form.
    pub open spec fn num_text(self) -> Seq<char> {
        match self {
            Content::Num(n) => decimal(n),
            Content::Arr(a) => seq!['['] + joined(a) + seq![']'],
            Content::Bool(b) => bool_text(b),
        }
    }

    /// What `Printc` writes: for a number the character whose code point is
    /// the number modulo 256, for an array its items one after the other,
    /// for a boolean `true` or `false`.
    pub open spec fn char_text(self) -> Seq<char>
        decreases self,
    {
        match self {
            Content::Num(n) => seq![(n % 256) as char],
            Content::Arr(a) => spelled(a),
            Content::Bool(b) => bool_text(b),
        }
    }
}

/// An item of an array is smaller than the array, for termination.
proof fn lemma_item_smaller(v: Value, i: int)
    requires
        v is Arr,
        0 <= i < v->Arr_0.len(),
    ensures
        decreases_to!(v => v->Arr_0[i]),
{
    assert(decreases_to!(v => v->Arr_0));
    vstd::std_specs::vec::axiom_vec_index_decreases(v->Arr_0, i);
}

/// Two arrays have the same content when their items have, one by one.
pub proof fn lemma_contents_equal(a: Seq<Value>, b: Seq<Value>)
    ensures
        contents(a) == contents(b) <==> a.len() == b.len() && forall|i: int|
            0 <= i < a.len() ==> (#[trigger] a[i])@ == b[i]@,
{
    if a.len() == b.len() && forall|i: int| 0 <= i < a.len() ==> (#[trigger] a[i])@ == b[i]@ {
        assert(contents(a) =~= contents(b));
    }
    if contents(a) == contents(b) {
        assert(contents(a).len() == contents(b).len());
        assert forall|i: int| 0 <= i < a.len() implies (#[trigger] a[i])@ == b[i]@ by {
            assert(contents(a)[i] == contents(b)[i]);
        }
    }
}

impl Clone for Value {
    fn clone(&self) -> (res: Value)
        ensures
            res@ == self@,
        decreases self,
    {
        match self {
            Value::Num(n) => Value::Num(*n),
            Value::Bool(b) => Value::Bool(*b),
            Value::Arr(a) => {
                let mut out: Vec<Value> = Vec::new();
                let mut i: usize = 0;
                while i < a.len()
                    invariant
                        i <= a.len(),
                        *self == Value::Arr(*a),
                        out.len() == i,
                        forall|j: int| 0 <= j < i ==> (#[trigger] out[j])@ == a[j]@,
                    decreases a.len() - i,
                {
                    proof {
                        lemma_item_smaller(*self, i as int);
                    }
                    let item = a[i].clone();
                    out.push(item);
                    i += 1;
                }
                proof {
                    lemma_contents_equal(out@, a@);
                }
                Value::Arr(out)
            },
        }
    }
}

impl PartialEq for Value {
    fn eq(&self, other: &Value) -> (r: bool) {
        self.same_content(other)
    }
}

impl PartialEqSpecImpl for Value {
    open spec fn obeys_eq_spec() -> bool {
        true
    }

    open spec fn eq_spec(&self, other: &Value) -> bool {
        self@ == other@
    }
}

impl PartialOrd for Value {
    fn partial_cmp(&self, other: &Value) -> (o: Option<Ordering>) {
        match self.compare(other) {
            Some(Order::Less) => Some(Ordering::Less),
            Some(Order::Equal) => Some(Ordering::Equal),
            Some(Order::Greater) => Some(Ordering::Greater),
            None => None,
        }
    }
}

impl PartialOrdSpecImpl for Value {
    open spec fn obeys_partial_cmp_spec() -> bool {
        true
    }

    open spec fn partial_cmp_spec(&self, other: &Value) -> Option<Ordering> {
        match self@.compare(other@) {
            Some(Order::Less) => Some(Ordering::Less),
            Some(Order::Equal) => Some(Ordering::Equal),
            Some(Order::Greater) => Some(Ordering::Greater),
            None => None,
        }
    }
}

impl Value {
    pub fn kind_name(&self) -> (name: &'static str)
        ensures
            name == self@.kind_name(),
    {
        match self {
            Value::Num(_) => "number",
            Value::Arr(_) => "array",
            Value::Bool(_) => "bool",
        }
    }

    /// Whether `a` and `b` are of the same kind.
    pub fn same_type(a: &Value, b: &Value) -> (r: bool)
        ensures
            r == a@.same_type(b@),
    {
        match (a, b) {
            (Value::Num(_), Value::Num(_)) => true,
            (Value::Arr(_), Value::Arr(_)) => true,
            (Value::Bool(_), Value::Bool(_)) => true,
            _ => false,
        }
    }

    /// Whether the two values are of the same kind and hold the same.
    pub fn same_content(&self, other: &Value) -> (r: bool)
        ensures
            r == (self@ == other@),
        decreases self,
    {
        match (self, other) {
            (Value::Num(a), Value::Num(b)) => *a == *b,
            (Value::Bool(a), Value::Bool(b)) => *a == *b,
            (Value::Arr(a), Value::Arr(b)) => {
                proof {
                    lemma_contents_equal(a@, b@);
                }
                if a.len() != b.len() {
                    return false;
                }
                let mut i: usize = 0;
                while i < a.len()
                    invariant
                        i <= a.len(),
                        a.len() == b.len(),
                        *self == Value::Arr(*a),
                        *other == Value::Arr(*b),
                        forall|j: int| 0 <= j < i ==> (#[trigger] a[j])@ == b[j]@,
                    decreases a.len() - i,
                {
                    proof {
                        lemma_item_smaller(*self, i as int);
                    }
                    if !a[i].same_content(&b[i]) {
                        proof {
                            lemma_contents_equal(a@, b@);
                        }
                        return false;
                    }
                    i += 1;
                }
                proof {
                    lemma_contents_equal(a@, b@);
                }
                true
            },
            _ => false,
        }
    }

    /// The order of the two values, where they are of the same kind.
    pub fn compare(&self, other: &Value) -> (o: Option<Order>)
        ensures
            o == self@.compare(other@),
        decreases self,
    {
        match (self, other) {
            (Value::Num(a), Value::Num(b)) => Some(
                if *a < *b {
                    Order::Less
                } else if *a == *b {
                    Order::Equal
                } else {
                    Order::Greater
                },
            ),
            (Value::Bool(a), Value::Bool(b)) => Some(
                if *a == *b {
                    Order::Equal
                } else if *b {
                    Order::Less
                } else {
                    Order::Greater
                },
            ),
            (Value::Arr(a), Value::Arr(b)) => {
                let mut i: usize = 0;
                proof {
                    assert(contents(a@).skip(0) =~= contents(a@));
                    assert(contents(b@).skip(0) =~= contents(b@));
                }
                while i < a.len() && i < b.len()
                    invariant
                        i <= a.len(),
                        i <= b.len(),
                        *self == Value::Arr(*a),
                        *other == Value::Arr(*b),
                        compare_lists(contents(a@), contents(b@)) == compare_lists(
                            contents(a@).skip(i as int),
                            contents(b@).skip(i as int),
                        ),
                    decreases a.len() - i,
                {
                    proof {
                        lemma_item_smaller(*self, i as int);
                    }
                    let ghost x = contents(a@).skip(i as int);
                    let ghost y = contents(b@).skip(i as int);
                    proof {
                        assert(x[0] == a[i as int]@);
                        assert(y[0] == b[i as int]@);
                        assert(x.drop_first() =~= contents(a@).skip(i + 1));
                        assert(y.drop_first() =~= contents(b@).skip(i + 1));
                    }
                    match a[i].compare(&b[i]) {
                        Some(Order::Equal) => {},
                        other => {
                            return other;
                        },
                    }
                    i += 1;
                }
                Some(
                    if a.len() < b.len() {
                        Order::Less
                    } else if a.len() == b.len() {
                        Order::Equal
                    } else {
                        Order::Greater
                    },
                )
            },
            _ => None,
        }
    }

    pub fn is_num(&self) -> (b: bool)
        ensures
            b == (self is Num),
    {
        match self {
            Value::Num(_) => true,
            _ => false,
        }
    }

    pub fn is_bool(&self) -> (b: bool)
        ensures
            b == (self is Bool),
    {
        match self {
            Value::Bool(_) => true,
            _ => false,
        }
    }

    pub fn is_arr(&self) -> (b: bool)
        ensures
            b == (self is Arr),
    {
        match self {
            Value::Arr(_) => true,
            _ => false,
        }
    }

    pub fn as_num(&self) -> (n: i64)
        requires
            self is Num,
        ensures
            self@ == Content::Num(n as int),
    {
        match self {
            Value::Num(n) => *n,
            _ => 0,
        }
    }

    pub fn as_bool(&self) -> (b: bool)
        requires
            self is Bool,
        ensures
            self@ == Content::Bool(b),
    {
        match self {
            Value::Bool(b) => *b,
            _ => false,
        }
    }

    pub fn as_arr(&self) -> (a: Vec<Value>)
        requires
            self is Arr,
        ensures
            self@ == Content::Arr(contents(a@)),
    {
        match self.clone() {
            Value::Arr(a) => a,
            _ => Vec::new(),
        }
    }

    pub fn as_slice(&self) -> (a: &[Value])
        requires
            self is Arr,
        ensures
            self@ == Content::Arr(contents(a@)),
            a@ == self->Arr_0@,
    {
        match self {
            Value::Arr(a) => a.as_slice(),
            _ => &[],
        }
    }

    pub fn get_num(&self) -> (n: Option<i64>)
        ensures
            match n {
                Some(n) => self@ == Content::Num(n as int),
                None => !(self is Num),
            },
    {
        match self {
            Value::Num(n) => Some(*n),
            _ => None,
        }
    }

    pub fn get_bool(&self) -> (b: Option<bool>)
        ensures
            match b {
                Some(b) => self@ == Content::Bool(b),
                None => !(self is Bool),
            },
    {
        match self {
            Value::Bool(b) => Some(*b),
            _ => None,
        }
    }

    pub fn get_arr(&self) -> (a: Option<Vec<Value>>)
        ensures
            match a {
                Some(a) => self@ == Content::Arr(contents(a@)),
                None => !(self is Arr),
            },
    {
        match self.clone() {
            Value::Arr(a) => Some(a),
            _ => None,
        }
    }

    pub fn get_slice(&self) -> (a: Option<&[Value]>)
        ensures
            match a {
                Some(a) => self is Arr && a@ == self->Arr_0@,
                None => !(self is Arr),
            },
    {
        match self {
            Value::Arr(a) => Some(a.as_slice()),
            _ => None,
        }
    }

    pub fn is_truthy(&self) -> (b: bool)
        ensures
            b == self@.truthy(),
    {
        match self {
            Value::Bool(b) => *b,
            _ => true,
        }
    }

    /// Appends to `out` the items of `items` in debug form, separated by a
    /// comma and a space.
    fn push_joined(items: &Vec<Value>, out: &mut Vec<char>)
        ensures
            final(out)@ == old(out)@ + joined(contents(items@)),
        decreases items,
    {
        let ghost all = contents(items@);
        let mut i: usize = 0;
        proof {
            assert(out@ =~= old(out)@ + joined(all.take(0)));
        }
        while i < items.len()
            invariant
                i <= items.len(),
                all == contents(items@),
                out@ == old(out)@ + joined(all.take(i as int)),
            decreases items.len() - i,
        {
            let ghost before = out@;
            if i > 0 {
                out.push(',');
                out.push(' ');
            }
            proof {
                vstd::std_specs::vec::axiom_vec_index_decreases(*items, i as int);
            }
            items[i].push_debug(out);
            proof {
                let now = all.take(i + 1);
                assert(now.drop_last() =~= all.take(i as int));
                assert(now.last() == items[i as int]@);
                if i > 0 {
                    assert(out@ =~= before + seq![',', ' '] + items[i as int]@.debug_text());
                }
                assert(out@ =~= old(out)@ + joined(now));
            }
            i += 1;
        }
        proof {
            assert(all.take(i as int) =~= all);
        }
    }

    /// Appends to `out` the form in which the value appears inside a
    /// printed array.
    fn push_debug(&self, out: &mut Vec<char>)
        ensures
            final(out)@ == old(out)@ + self@.debug_text(),
        decreases self,
    {
        match self {
            Value::Num(n) => {
                out.push('N');
                out.push('u');
                out.push('m');
                out.push('(');
                push_decimal(out, *n);
                out.push(')');
            },
            Value::Arr(a) => {
                out.push('A');
                out.push('r');
                out.push('r');
                out.push('(');
                out.push('[');
                proof {
                    assert(decreases_to!(*self => self->Arr_0));
                }
                Self::push_joined(a, out);
                out.push(']');
                out.push(')');
            },
            Value::Bool(b) => {
                out.push('B');
                out.push('o');
                out.push('o');
                out.push('l');
                out.push('(');
                push_bool(out, *b);
                out.push(')');
            },
        }
        proof {
            assert(out@ =~= old(out)@ + self@.debug_text());
        }
    }

    /// Writes the value to `out` as `Print` shows it: a number in decimal,
    /// a boolean as `true` or `false`, an array as the list of its items.
    pub fn print_as_num(&self, out: &mut Vec<char>)
        ensures
            final(out)@ == old(out)@ + self@.num_text(),
    {
        match self {
            Value::Num(n) => {
                push_decimal(out, *n);
            },
            Value::Arr(a) => {
                out.push('[');
                Self::push_joined(a, out);
                out.push(']');
                proof {
                    assert(out@ =~= old(out)@ + self@.num_text());
                }
            },
            Value::Bool(b) => {
                push_bool(out, *b);
            },
        }
    }

    /// Writes the value to `out` as `Printc` shows it: a number as the
    /// character with that code point, modulo 256, an array as its items
    /// one after the other, a boolean as `true` or `false`.
    pub fn print_as_char(&self, out: &mut Vec<char>)
        ensures
            final(out)@ == old(out)@ + self@.char_text(),
        decreases self,
    {
        match self {
            Value::Num(n) => {
                let low: i64 = if *n >= 0 {
                    *n % 256
                } else {
                    255 - (-(*n + 1)) % 256
                };
                out.push((low as u8) as char);
                proof {
                    assert(out@ =~= old(out)@ + self@.char_text());
                }
            },
            Value::Arr(a) => {
                let ghost all = contents(a@);
                let mut i: usize = 0;
                proof {
                    assert(out@ =~= old(out)@ + spelled(all.take(0)));
                }
                while i < a.len()
                    invariant
                        i <= a.len(),
                        *self == Value::Arr(*a),
                        all == contents(a@),
                        out@ == old(out)@ + spelled(all.take(i as int)),
                    decreases a.len() - i,
                {
                    proof {
                        lemma_item_smaller(*self, i as int);
                    }
                    a[i].print_as_char(out);
                    proof {
                        let now = all.take(i + 1);
                        assert(now.drop_last() =~= all.take(i as int));
                        assert(now.last() == a[i as int]@);
                        assert(out@ =~= old(out)@ + spelled(now));
                    }
                    i += 1;
                }
                proof {
                    assert(all.take(i as int) =~= all);
                }
            },
            Value::Bool(b) => {
                push_bool(out, *b);
            },
        }
    }
}

impl TryFrom<Value> for i64 {
    type Error = Error;

    fn try_from(value: Value) -> (r: Result<i64, Error>) {
        match value {
            Value::Num(n) => Ok(n),
            Value::Arr(_) => Err(Error::TypeMismatch { wanted: "number", got: "array" }),
            Value::Bool(_) => Err(Error::TypeMismatch { wanted: "number", got: "bool" }),
        }
    }
}

impl TryFromSpecImpl<Value> for i64 {
    open spec fn obeys_try_from_spec() -> bool {
        true
    }

    open spec fn try_from_spec(value: Value) -> Result<i64, Error> {
        match value {
            Value::Num(n) => Ok(n),
            Value::Arr(_) => Err(Error::TypeMismatch { wanted: "number", got: "array" }),
            Value::Bool(_) => Err(Error::TypeMismatch { wanted: "number", got: "bool" }),
        }
    }
}

impl TryFrom<Value> for bool {
    type Error = Error;

    fn try_from(value: Value) -> (r: Result<bool, Error>) {
        match value {
            Value::Bool(b) => Ok(b),
            Value::Arr(_) => Err(Error::TypeMismatch { wanted: "bool", got: "array" }),
            Value::Num(_) => Err(Error::TypeMismatch { wanted: "bool", got: "number" }),
        }
    }
}

impl TryFromSpecImpl<Value> for bool {
    open spec fn obeys_try_from_spec() -> bool {
        true
    }

    open spec fn try_from_spec(value: Value) -> Result<bool, Error> {
        match value {
            Value::Bool(b) => Ok(b),
            Value::Arr(_) => Err(Error::TypeMismatch { wanted: "bool", got: "array" }),
            Value::Num(_) => Err(Error::TypeMismatch { wanted: "bool", got: "number" }),
        }
    }
}

impl TryFrom<Value> for Vec<Value> {
    type Error = Error;

    fn try_from(value: Value) -> (r: Result<Vec<Value>, Error>) {
        match value {
            Value::Arr(a) => Ok(a),
            Value::Num(_) => Err(Error::TypeMismatch { wanted: "array", got: "number" }),
            Value::Bool(_) => Err(Error::TypeMismatch { wanted: "array", got: "bool" }),
        }
    }
}

impl TryFromSpecImpl<Value> for Vec<Value> {
    open spec fn obeys_try_from_spec() -> bool {
        true
    }

    open spec fn try_from_spec(value: Value) -> Result<Vec<Value>, Error> {
        match value {
            Value::Arr(a) => Ok(a),
            Value::Num(_) => Err(Error::TypeMismatch { wanted: "array", got: "number" }),
            Value::Bool(_) => Err(Error::TypeMismatch { wanted: "array", got: "bool" }),
        }
    }
}

} // verus!
