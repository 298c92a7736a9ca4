//! Leaf scalars: what a leaf holds, and the capability set that every scalar
//! representation offers.

use vstd::prelude::*;

verus! {

/// What a scalar leaf holds, independent of the representation that carries it.
pub enum Leaf {
    Int(i32),
    Long(i64),
    Text(Seq<char>),
    Boolean(bool),
}

/// The leaf as a representation `S` takes it: every kind but the 64-bit
/// integer is kept as it is, and the 64-bit integer goes through the
/// conversion that `S` supplies.
pub open spec fn adopt<S: ScalarValue>(l: Leaf) -> Leaf {
    match l {
        Leaf::Long(i) => S::adopt_long(i),
        _ => l,
    }
}

/// A scalar representation: a set of leaf kinds with constructors from host
/// types, borrowing accessors, and a total conversion for the one kind that
/// a representation may lack.
pub trait ScalarValue: Sized {
    /// The leaf that this scalar holds.
    spec fn leaf(&self) -> Leaf;

    /// How this representation takes a 64-bit integer.
    spec fn adopt_long(i: i64) -> Leaf;

    /// A 64-bit leaf held by this representation is taken unchanged.
    proof fn lemma_own_long(&self)
        ensures
            self.leaf() is Long ==> Self::adopt_long(self.leaf()->Long_0) == self.leaf(),
    ;

    fn from_int(i: i32) -> (s: Self)
        ensures
            s.leaf() == Leaf::Int(i),
    ;

    fn from_long(i: i64) -> (s: Self)
        ensures
            s.leaf() == Self::adopt_long(i),
    ;

    fn from_string(t: String) -> (s: Self)
        ensures
            s.leaf() == Leaf::Text(t@),
    ;

    fn from_boolean(b: bool) -> (s: Self)
        ensures
            s.leaf() == Leaf::Boolean(b),
    ;

    fn int_ref(&self) -> (r: Option<&i32>)
        ensures
            r is Some <==> self.leaf() is Int,
            r is Some ==> self.leaf() == Leaf::Int(*r.unwrap()),
    ;

    fn long_ref(&self) -> (r: Option<&i64>)
        ensures
            r is Some <==> self.leaf() is Long,
            r is Some ==> self.leaf() == Leaf::Long(*r.unwrap()),
    ;

    fn string_ref(&self) -> (r: Option<&String>)
        ensures
            r is Some <==> self.leaf() is Text,
            r is Some ==> self.leaf() == Leaf::Text(r.unwrap()@),
    ;

    fn boolean_ref(&self) -> (r: Option<&bool>)
        ensures
            r is Some <==> self.leaf() is Boolean,
            r is Some ==> self.leaf() == Leaf::Boolean(*r.unwrap()),
    ;
}

/// Takes a scalar of one representation into another, kind by kind: total,
/// and without change wherever the target has the kind.
pub fn into_another<S: ScalarValue, T: ScalarValue>(s: S) -> (r: T)
    ensures
        r.leaf() == adopt::<T>(s.leaf()),
{
    if let Some(i) = s.int_ref() {
        T::from_int(*i)
    } else if let Some(b) = s.boolean_ref() {
        T::from_boolean(*b)
    } else if let Some(l) = s.long_ref() {
        T::from_long(*l)
    } else {
        let t = s.string_ref();
        T::from_string(t.unwrap().clone())
    }
}

/// A host type that scalars are built from.
pub trait IntoScalar: Sized {
    /// The leaf that stands for this host value.
    spec fn as_leaf(&self) -> Leaf;

    fn into_scalar<S: ScalarValue>(self) -> (s: S)
        ensures
            s.leaf() == adopt::<S>(self.as_leaf()),
    ;
}

/// A host type as which a scalar can be read back.
pub trait ScalarRef: IntoScalar {
    /// Whether a leaf is of this host type's kind.
    spec fn holds(l: Leaf) -> bool;

    /// A host value's own leaf is of its kind.
    proof fn lemma_holds_own(&self)
        ensures
            Self::holds(self.as_leaf()),
    ;

    fn pick<S: ScalarValue>(s: &S) -> (r: Option<&Self>)
        ensures
            r is Some <==> Self::holds(s.leaf()),
            r is Some ==> r.unwrap().as_leaf() == s.leaf(),
    ;
}

impl IntoScalar for i32 {
    open spec fn as_leaf(&self) -> Leaf {
        Leaf::Int(*self)
    }

    fn into_scalar<S: ScalarValue>(self) -> (s: S) {
        S::from_int(self)
    }
}

impl ScalarRef for i32 {
    open spec fn holds(l: Leaf) -> bool {
        l is Int
    }

    proof fn lemma_holds_own(&self) {
    }

    fn pick<S: ScalarValue>(s: &S) -> (r: Option<&Self>) {
        s.int_ref()
    }
}

impl IntoScalar for i64 {
    open spec fn as_leaf(&self) -> Leaf {
        Leaf::Long(*self)
    }

    fn into_scalar<S: ScalarValue>(self) -> (s: S) {
        S::from_long(self)
    }
}

impl ScalarRef for i64 {
    open spec fn holds(l: Leaf) -> bool {
        l is Long
    }

    proof fn lemma_holds_own(&self) {
    }

    fn pick<S: ScalarValue>(s: &S) -> (r: Option<&Self>) {
        s.long_ref()
    }
}

impl IntoScalar for bool {
    open spec fn as_leaf(&self) -> Leaf {
        Leaf::Boolean(*self)
    }

    fn into_scalar<S: ScalarValue>(self) -> (s: S) {
        S::from_boolean(self)
    }
}

impl ScalarRef for bool {
    open spec fn holds(l: Leaf) -> bool {
        l is Boolean
    }

    proof fn lemma_holds_own(&self) {
    }

    fn pick<S: ScalarValue>(s: &S) -> (r: Option<&Self>) {
        s.boolean_ref()
    }
}

impl IntoScalar for String {
    open spec fn as_leaf(&self) -> Leaf {
        Leaf::Text(self@)
    }

    fn into_scalar<S: ScalarValue>(self) -> (s: S) {
        S::from_string(self)
    }
}

impl ScalarRef for String {
    open spec fn holds(l: Leaf) -> bool {
        l is Text
    }

    proof fn lemma_holds_own(&self) {
    }

    fn pick<S: ScalarValue>(s: &S) -> (r: Option<&Self>) {
        s.string_ref()
    }
}

impl<'a> IntoScalar for &'a str {
    open spec fn as_leaf(&self) -> Leaf {
        Leaf::Text(self@)
    }

    fn into_scalar<S: ScalarValue>(self) -> (s: S) {
        S::from_string(self.to_owned())
    }
}

/// The default representation: 32-bit integers, strings and booleans.
#[derive(Debug, PartialEq)]
pub enum DefaultScalarValue {
    Int(i32),
    String(String),
    Boolean(bool),
}

impl ScalarValue for DefaultScalarValue {
    open spec fn leaf(&self) -> Leaf {
        match self {
            DefaultScalarValue::Int(i) => Leaf::Int(*i),
            DefaultScalarValue::String(s) => Leaf::Text(s@),
            DefaultScalarValue::Boolean(b) => Leaf::Boolean(*b),
        }
    }

    open spec fn adopt_long(i: i64) -> Leaf {
        if i32::MIN <= i <= i32::MAX {
            Leaf::Int(i as i32)
        } else {
            Leaf::Text(decimal(i as int))
        }
    }

    proof fn lemma_own_long(&self) {
    }

    fn from_int(i: i32) -> (s: Self) {
        DefaultScalarValue::Int(i)
    }

    fn from_long(i: i64) -> (s: Self) {
        if i32::MIN as i64 <= i && i <= i32::MAX as i64 {
            DefaultScalarValue::Int(i as i32)
        } else {
            DefaultScalarValue::String(render_long(i))
        }
    }

    fn from_string(t: String) -> (s: Self) {
        DefaultScalarValue::String(t)
    }

    fn from_boolean(b: bool) -> (s: Self) {
        DefaultScalarValue::Boolean(b)
    }

    fn int_ref(&self) -> (r: Option<&i32>) {
        match self {
            DefaultScalarValue::Int(i) => Some(i),
            _ => None,
        }
    }

    fn long_ref(&self) -> (r: Option<&i64>) {
        None
    }

    fn string_ref(&self) -> (r: Option<&String>) {
        match self {
            DefaultScalarValue::String(s) => Some(s),
            _ => None,
        }
    }

    fn boolean_ref(&self) -> (r: Option<&bool>) {
        match self {
            DefaultScalarValue::Boolean(b) => Some(b),
            _ => None,
        }
    }
}

/// A representation that adds 64-bit integers to the default kinds.
#[derive(Debug, PartialEq)]
pub enum LongScalarValue {
    Int(i32),
    Long(i64),
    String(String),
    Boolean(bool),
}

impl ScalarValue for LongScalarValue {
    open spec fn leaf(&self) -> Leaf {
        match self {
            LongScalarValue::Int(i) => Leaf::Int(*i),
            LongScalarValue::Long(i) => Leaf::Long(*i),
            LongScalarValue::String(s) => Leaf::Text(s@),
            LongScalarValue::Boolean(b) => Leaf::Boolean(*b),
        }
    }

    open spec fn adopt_long(i: i64) -> Leaf {
        Leaf::Long(i)
    }

    proof fn lemma_own_long(&self) {
    }

    fn from_int(i: i32) -> (s: Self) {
        LongScalarValue::Int(i)
    }

    fn from_long(i: i64) -> (s: Self) {
        LongScalarValue::Long(i)
    }

    fn from_string(t: String) -> (s: Self) {
        LongScalarValue::String(t)
    }

    fn from_boolean(b: bool) -> (s: Self) {
        LongScalarValue::Boolean(b)
    }

    fn int_ref(&self) -> (r: Option<&i32>) {
        match self {
            LongScalarValue::Int(i) => Some(i),
            _ => None,
        }
    }

    fn long_ref(&self) -> (r: Option<&i64>) {
        match self {
            LongScalarValue::Long(i) => Some(i),
            _ => None,
        }
    }

    fn string_ref(&self) -> (r: Option<&String>) {
        match self {
            LongScalarValue::String(s) => Some(s),
            _ => None,
        }
    }

    fn boolean_ref(&self) -> (r: Option<&bool>) {
        match self {
            LongScalarValue::Boolean(b) => Some(b),
            _ => None,
        }
    }
}

impl LongScalarValue {
    /// The scalar for an unsigned 32-bit number: a 32-bit integer where it
    /// fits, else a 64-bit integer.
    pub fn from_u32(value: u32) -> (s: Self)
        ensures
            s.leaf() == if value <= i32::MAX {
                Leaf::Int(value as i32)
            } else {
                Leaf::Long(value as i64)
            },
    {
        if value <= 2147483647u32 {
            LongScalarValue::Int(value as i32)
        } else {
            LongScalarValue::Long(value as i64)
        }
    }

    /// The scalar for an unsigned 64-bit number: a 64-bit integer where it
    /// fits, and none where it does not.
    pub fn from_u64(value: u64) -> (s: Option<Self>)
        ensures
            s is Some <==> value <= i64::MAX,
            s is Some ==> s.unwrap().leaf() == Leaf::Long(value as i64),
    {
        if value <= 9223372036854775807u64 {
            Some(LongScalarValue::Long(value as i64))
        } else {
            None
        }
    }
}

/// The decimal digit for `d`, for `d` below ten.
pub open spec fn digit(d: nat) -> char {
    if d == 0 {
        '0'
    } else if d == 1 {
        '1'
    } else if d == 2 {
        '2'
    } else if d == 3 {
        '3'
    } else if d == 4 {
        '4'
    } else if d == 5 {
        '5'
    } else if d == 6 {
        '6'
    } else if d == 7 {
        '7'
    } else if d == 8 {
        '8'
    } else {
        '9'
    }
}

/// The decimal digits of a natural number, most significant first, without
/// leading zeros.
pub open spec fn digits(n: nat) -> Seq<char>
    decreases n,
{
    if n < 10 {
        seq![digit(n)]
    } else {
        digits(n / 10).push(digit(n % 10))
    }
}

/// The decimal rendering of an integer: a minus sign for a negative one,
/// then the digits of its magnitude.
pub open spec fn decimal(i: int) -> Seq<char> {
    if i < 0 {
        seq!['-'] + digits((-i) as nat)
    } else {
        digits(i as nat)
    }
}

/// Whether two strings hold the same text: `str`'s `==`, which compares the
/// contents of the two slices.
#[verifier::external_body]
pub(crate) fn same_text(a: &str, b: &str) -> (r: bool)
    ensures
        r == (a@ == b@),
{
    a == b
}

fn digit_text(d: u64) -> (r: &'static str)
    requires
        d < 10,
    ensures
        r@ == seq![digit(d as nat)],
{
    proof {
        reveal_strlit("0");
        reveal_strlit("1");
        reveal_strlit("2");
        reveal_strlit("3");
        reveal_strlit("4");
        reveal_strlit("5");
        reveal_strlit("6");
        reveal_strlit("7");
        reveal_strlit("8");
        reveal_strlit("9");
    }
    let r = if d == 0 {
        "0"
    } else if d == 1 {
        "1"
    } else if d == 2 {
        "2"
    } else if d == 3 {
        "3"
    } else if d == 4 {
        "4"
    } else if d == 5 {
        "5"
    } else if d == 6 {
        "6"
    } else if d == 7 {
        "7"
    } else if d == 8 {
        "8"
    } else {
        "9"
    };
    assert(r@ =~= seq![digit(d as nat)]);
    r
}

/// Renders a natural number in decimal.
pub fn render_digits(n: u64) -> (r: String)
    ensures
        r@ == digits(n as nat),
    decreases n,
{
    if n < 10 {
        digit_text(n).to_owned()
    } else {
        let mut r = render_digits(n / 10);
        r.append(digit_text(n % 10));
        assert(r@ =~= digits(n as nat));
        r
    }
}

/// Renders a 64-bit integer in decimal.
pub fn render_long(i: i64) -> (r: String)
    ensures
        r@ == decimal(i as int),
{
    if i < 0 {
        proof {
            reveal_strlit("-");
        }
        let mut r = "-".to_owned();
        let m: u64 = if i == i64::MIN {
            9223372036854775808u64
        } else {
            (-i) as u64
        };
        let d = render_digits(m);
        r.append(d.as_str());
        assert(r@ =~= decimal(i as int));
        r
    } else {
        render_digits(i as u64)
    }
}

} // verus!
