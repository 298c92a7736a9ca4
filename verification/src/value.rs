//! The structured result of execution: values, and objects that keep their
//! fields in insertion order under distinct keys.

use vstd::prelude::*;
use crate::scalar::DefaultScalarValue;
use crate::scalar::Leaf;
use crate::scalar::ScalarValue;
use crate::scalar::same_text;
use crate::scalar::adopt;
use crate::scalar::into_another;
use crate::scalar::IntoScalar;
use crate::scalar::ScalarRef;

verus! {

/// The mathematical content of a value: a tree whose leaves are scalar
/// leaves and whose objects are sequences of keyed subtrees.
pub enum Tree {
    Null,
    Scalar(Leaf),
    List(Seq<Tree>),
    Object(Seq<(Seq<char>, Tree)>),
}

/// The keys of a field sequence are pairwise distinct.
pub open spec fn distinct_keys<V>(fields: Seq<(Seq<char>, V)>) -> bool {
    forall|i: int, j: int|
        0 <= i < fields.len() && 0 <= j < fields.len() && i != j ==> fields[i].0 != fields[j].0
}

/// The position of `key` among `fields`, or the length of `fields` where no
/// field has that key.
pub open spec fn position_of<V>(fields: Seq<(Seq<char>, V)>, key: Seq<char>) -> int
    decreases fields.len(),
{
    if fields.len() == 0 {
        0
    } else if fields[0].0 == key {
        0
    } else {
        1 + position_of(fields.drop_first(), key)
    }
}

/// Whether some field of `fields` has the key `key`.
pub open spec fn has_key<V>(fields: Seq<(Seq<char>, V)>, key: Seq<char>) -> bool {
    position_of(fields, key) < fields.len()
}

/// The value under `key`, where there is one.
pub open spec fn lookup<V>(fields: Seq<(Seq<char>, V)>, key: Seq<char>) -> Option<V> {
    if has_key(fields, key) {
        Some(fields[position_of(fields, key)].1)
    } else {
        None
    }
}

/// `fields` after `value` is written under `key`: a field with that key keeps
/// its place and takes the new value, and a new key goes to the end.
pub open spec fn put<V>(fields: Seq<(Seq<char>, V)>, key: Seq<char>, value: V) -> Seq<
    (Seq<char>, V),
> {
    if has_key(fields, key) {
        fields.update(position_of(fields, key), (key, value))
    } else {
        fields.push((key, value))
    }
}

/// `fields` after every field of `more` has been written into it, in order.
pub open spec fn put_all(fields: Seq<(Seq<char>, Tree)>, more: Seq<(Seq<char>, Tree)>) -> Seq<
    (Seq<char>, Tree),
>
    decreases more.len(),
{
    if more.len() == 0 {
        fields
    } else {
        put(put_all(fields, more.drop_last()), more.last().0, more.last().1)
    }
}

/// Facts about the position of a key: it is within bounds, no earlier field
/// has the key, and the field at the position has it.
pub proof fn lemma_position_of<V>(fields: Seq<(Seq<char>, V)>, key: Seq<char>)
    ensures
        0 <= position_of(fields, key) <= fields.len(),
        forall|i: int| 0 <= i < position_of(fields, key) ==> (#[trigger] fields[i]).0 != key,
        has_key(fields, key) ==> fields[position_of(fields, key)].0 == key,
    decreases fields.len(),
{
    if fields.len() != 0 && fields[0].0 != key {
        let rest = fields.drop_first();
        lemma_position_of(rest, key);
        assert forall|i: int| 0 <= i < position_of(fields, key) implies (#[trigger] fields[i]).0
            != key by {
            if i > 0 {
                assert(fields[i] == rest[i - 1]);
            }
        }
        if has_key(fields, key) {
            assert(fields[position_of(fields, key)] == rest[position_of(rest, key)]);
        }
    }
}

/// Writing under a key keeps the keys distinct.
pub proof fn lemma_put_distinct<V>(fields: Seq<(Seq<char>, V)>, key: Seq<char>, value: V)
    requires
        distinct_keys(fields),
    ensures
        distinct_keys(put(fields, key, value)),
        lookup(put(fields, key, value), key) == Some(value),
        put(fields, key, value).len() == if has_key(fields, key) {
            fields.len()
        } else {
            fields.len() + 1
        },
{
    lemma_position_of(fields, key);
    let after = put(fields, key, value);
    let p = position_of(fields, key);
    lemma_position_of(after, key);
    assert(after[p].0 == key);
    assert forall|i: int, j: int|
        0 <= i < after.len() && 0 <= j < after.len() && i != j implies after[i].0 != after[j].0 by {
        if i < fields.len() && j < fields.len() {
            assert(fields[i].0 != fields[j].0);
        }
    }
    if position_of(after, key) > p {
        assert(after[p].0 != key);
    }
}

/// The position of a key is the first index that holds it.
pub proof fn lemma_position_is<V>(fields: Seq<(Seq<char>, V)>, key: Seq<char>, at: int)
    requires
        0 <= at <= fields.len(),
        forall|i: int| 0 <= i < at ==> (#[trigger] fields[i]).0 != key,
        at < fields.len() ==> fields[at].0 == key,
    ensures
        position_of(fields, key) == at,
    decreases fields.len(),
{
    if fields.len() != 0 && at > 0 {
        let rest = fields.drop_first();
        assert(fields[0].0 != key);
        assert forall|i: int| 0 <= i < at - 1 implies (#[trigger] rest[i]).0 != key by {
            assert(rest[i] == fields[i + 1]);
        }
        lemma_position_is(rest, key, at - 1);
    }
}

/// An insertion-ordered mapping from response keys to values. No key occurs
/// twice.
#[derive(Debug, PartialEq)]
pub struct Object<S: ScalarValue> {
    key_value_list: Vec<(String, Value<S>)>,
}

/// A value produced by execution.
#[derive(Debug, PartialEq)]
pub enum Value<S: ScalarValue = DefaultScalarValue> {
    Null,
    Scalar(S),
    List(Vec<Value<S>>),
    Object(Object<S>),
}

/// The trees of a sequence of values, in order.
pub open spec fn trees<S: ScalarValue>(values: Seq<Value<S>>) -> Seq<Tree> {
    Seq::new(values.len(), |i: int| values[i]@)
}

/// The keyed trees of a sequence of keyed values, in order.
pub open spec fn keyed_trees<S: ScalarValue>(pairs: Seq<(String, Value<S>)>) -> Seq<
    (Seq<char>, Tree),
> {
    Seq::new(pairs.len(), |i: int| (pairs[i].0@, pairs[i].1@))
}

/// The tree that a value stands for.
pub open spec fn tree_of<S: ScalarValue>(v: Value<S>) -> Tree
    decreases v,
{
    match v {
        Value::Null => Tree::Null,
        Value::Scalar(s) => Tree::Scalar(s.leaf()),
        Value::List(l) => Tree::List(
            Seq::new(
                l.len() as nat,
                |i: int|
                    if 0 <= i < l.len() {
                        tree_of(l[i])
                    } else {
                        Tree::Null
                    },
            ),
        ),
        Value::Object(o) => Tree::Object(fields_of(o)),
    }
}

/// The keyed trees that an object stands for, in insertion order.
pub closed spec fn fields_of<S: ScalarValue>(o: Object<S>) -> Seq<(Seq<char>, Tree)>
    decreases o,
{
    Seq::new(
        o.key_value_list.len() as nat,
        |i: int|
            if 0 <= i < o.key_value_list.len() {
                (o.key_value_list[i].0@, tree_of(o.key_value_list[i].1))
            } else {
                (Seq::empty(), Tree::Null)
            },
    )
}

impl<S: ScalarValue> View for Value<S> {
    type V = Tree;

    open spec fn view(&self) -> Tree {
        tree_of(*self)
    }
}

impl<S: ScalarValue> View for Object<S> {
    type V = Seq<(Seq<char>, Tree)>;

    open spec fn view(&self) -> Seq<(Seq<char>, Tree)> {
        fields_of(*self)
    }
}

impl<S: ScalarValue> Object<S> {
    #[verifier::type_invariant]
    spec fn well_formed(self) -> bool {
        distinct_keys(self@)
    }

    /// An object without fields, with room for `size` of them.
    pub fn with_capacity(size: usize) -> (o: Self)
        ensures
            o@ == Seq::<(Seq<char>, Tree)>::empty(),
            distinct_keys(o@),
    {
        let o = Object { key_value_list: Vec::with_capacity(size) };
        assert(o@ =~= Seq::<(Seq<char>, Tree)>::empty());
        o
    }

    /// The number of fields.
    pub fn field_count(&self) -> (n: usize)
        ensures
            n == self@.len(),
            distinct_keys(self@),
    {
        proof {
            use_type_invariant(self);
        }
        self.key_value_list.len()
    }

    fn index_of(&self, key: &str) -> (at: usize)
        ensures
            at == position_of(self@, key@),
            at <= self@.len(),
            at == self.key_value_list.len() || at < self.key_value_list.len(),
    {
        let mut i: usize = 0;
        while i < self.key_value_list.len()
            invariant
                i <= self.key_value_list.len(),
                self@.len() == self.key_value_list.len(),
                forall|j: int| 0 <= j < i ==> (#[trigger] self@[j]).0 != key@,
            decreases self.key_value_list.len() - i,
        {
            if same_text(self.key_value_list[i].0.as_str(), key) {
                proof {
                    lemma_position_is(self@, key@, i as int);
                }
                return i;
            }
            i += 1;
        }
        proof {
            lemma_position_is(self@, key@, i as int);
        }
        i
    }

    /// Whether the object has a field under `key`.
    pub fn contains_field(&self, key: &str) -> (b: bool)
        ensures
            b == has_key(self@, key@),
    {
        self.index_of(key) < self.key_value_list.len()
    }

    /// The value under `key`, where the object has that field.
    pub fn get_field_value(&self, key: &str) -> (r: Option<&Value<S>>)
        ensures
            r is Some <==> has_key(self@, key@),
            r is Some ==> lookup(self@, key@) == Some(r.unwrap()@),
    {
        let at = self.index_of(key);
        if at < self.key_value_list.len() {
            Some(&self.key_value_list[at].1)
        } else {
            None
        }
    }

    /// The key and the value of the field at position `at`, where there is
    /// one.
    pub fn field_at(&self, at: usize) -> (r: Option<(&String, &Value<S>)>)
        ensures
            r is Some <==> at < self@.len(),
            r is Some ==> self@[at as int] == (r.unwrap().0@, r.unwrap().1@),
            r is Some ==> decreases_to!(*self => *r.unwrap().1),
    {
        if at < self.key_value_list.len() {
            let pair = &self.key_value_list[at];
            assert(decreases_to!(self.key_value_list => self.key_value_list[at as int]));
            Some((&pair.0, &pair.1))
        } else {
            None
        }
    }

    /// The object that holds the given fields, written one after another:
    /// a key that occurs again takes the later value at its first place.
    pub fn from_fields(fields: Vec<(String, Value<S>)>) -> (o: Self)
        ensures
            o@ == put_all(Seq::empty(), keyed_trees(fields@)),
            distinct_keys(o@),
    {
        let ghost target = keyed_trees(fields@);
        let ghost orig = fields@;
        let mut o = Object::with_capacity(fields.len());
        let mut rest = reversed(fields);
        let ghost mut done: int = 0;
        assert(target.take(0) =~= Seq::empty());
        while rest.len() > 0
            invariant
                keyed_trees(orig) == target,
                0 <= done <= orig.len(),
                rest@.len() + done == orig.len(),
                rest@ == orig.reverse().subrange(0, rest@.len() as int),
                o@ == put_all(Seq::empty(), target.take(done)),
                distinct_keys(o@),
            decreases rest.len(),
        {
            let pair = rest.pop().unwrap();
            assert(pair == orig[done]);
            assert(target[done] == (pair.0@, pair.1@));
            let _ = o.add_field(pair.0.as_str(), pair.1);
            proof {
                assert(target.take(done + 1).drop_last() =~= target.take(done));
                done = done + 1;
            }
        }
        assert(target.take(done) =~= target);
        o
    }

    /// The fields, in insertion order.
    pub fn into_fields(self) -> (fields: Vec<(String, Value<S>)>)
        ensures
            keyed_trees(fields@) == self@,
            distinct_keys(self@),
    {
        proof {
            use_type_invariant(&self);
        }
        let fields = self.key_value_list;
        assert(keyed_trees(fields@) =~= self@);
        fields
    }

    /// Writes `value` under `key`. A field that is already there keeps its
    /// place and hands back the value it held; a new key goes to the end.
    pub fn add_field(&mut self, key: &str, value: Value<S>) -> (prev: Option<Value<S>>)
        ensures
            final(self)@ == put(old(self)@, key@, value@),
            distinct_keys(final(self)@),
            prev is Some <==> has_key(old(self)@, key@),
            prev is Some ==> lookup(old(self)@, key@) == Some(prev.unwrap()@),
    {
        proof {
            use_type_invariant(&*self);
            lemma_put_distinct(self@, key@, value@);
        }
        let at = self.index_of(key);
        let ghost before = self@;
        let mut taken = Object { key_value_list: Vec::new() };
        assert(taken@ =~= Seq::<(Seq<char>, Tree)>::empty());
        core::mem::swap(self, &mut taken);
        let mut list = taken.key_value_list;
        list.push((key.to_owned(), value));
        let prev = if at < list.len() - 1 {
            Some(list.swap_remove(at).1)
        } else {
            None
        };
        assert((Object { key_value_list: list })@ =~= put(before, key@, value@));
        let mut built = Object { key_value_list: list };
        core::mem::swap(self, &mut built);
        prev
    }
}

/// A tree with every leaf taken into the representation `T`.
pub open spec fn adopt_tree<T: ScalarValue>(tree: Tree) -> Tree
    decreases tree,
{
    match tree {
        Tree::Null => Tree::Null,
        Tree::Scalar(l) => Tree::Scalar(adopt::<T>(l)),
        Tree::List(items) => Tree::List(
            Seq::new(
                items.len(),
                |i: int|
                    if 0 <= i < items.len() {
                        adopt_tree::<T>(items[i])
                    } else {
                        Tree::Null
                    },
            ),
        ),
        Tree::Object(fields) => Tree::Object(
            Seq::new(
                fields.len(),
                |i: int|
                    if 0 <= i < fields.len() {
                        (fields[i].0, adopt_tree::<T>(fields[i].1))
                    } else {
                        (Seq::empty(), Tree::Null)
                    },
            ),
        ),
    }
}

/// The tree of the scalar value built from the host value `t` in the
/// representation `S`.
pub open spec fn scalar_tree<S: ScalarValue, T: IntoScalar>(t: T) -> Tree {
    Tree::Scalar(adopt::<S>(t.as_leaf()))
}

/// The leaf that reading a tree as the host type `T` gives: the tree's leaf
/// where it is a scalar of that kind.
pub open spec fn extract<T: ScalarRef>(tree: Tree) -> Option<Leaf> {
    match tree {
        Tree::Scalar(l) => if T::holds(l) {
            Some(l)
        } else {
            None
        },
        _ => None,
    }
}

impl<S: ScalarValue> Value<S> {
    /// The null value.
    pub fn null() -> (v: Self)
        ensures
            v@ == Tree::Null,
    {
        Value::Null
    }

    /// A 32-bit integer scalar.
    pub fn integer(i: i32) -> (v: Self)
        ensures
            v@ == Tree::Scalar(Leaf::Int(i)),
    {
        Value::Scalar(S::from_int(i))
    }

    /// A string scalar.
    pub fn string(s: &str) -> (v: Self)
        ensures
            v@ == Tree::Scalar(Leaf::Text(s@)),
    {
        Value::Scalar(S::from_string(s.to_owned()))
    }

    /// A boolean scalar.
    pub fn boolean(b: bool) -> (v: Self)
        ensures
            v@ == Tree::Scalar(Leaf::Boolean(b)),
    {
        Value::Scalar(S::from_boolean(b))
    }

    /// A list of the given values, in their order.
    pub fn list(l: Vec<Self>) -> (v: Self)
        ensures
            v@ == Tree::List(trees(l@)),
    {
        let v = Value::List(l);
        assert(v@->List_0 =~= trees(l@));
        v
    }

    /// The value that is the given object.
    pub fn object(o: Object<S>) -> (v: Self)
        ensures
            v@ == Tree::Object(o@),
    {
        Value::Object(o)
    }

    /// A scalar built from a host value.
    pub fn scalar<T: IntoScalar>(s: T) -> (v: Self)
        ensures
            v@ == scalar_tree::<S, T>(s),
    {
        Value::Scalar(s.into_scalar())
    }

    /// Whether this is the null value.
    pub fn is_null(&self) -> (b: bool)
        ensures
            b == (self@ == Tree::Null),
    {
        match self {
            Value::Null => true,
            _ => false,
        }
    }

    /// The scalar read as the host type `T`, where this is a scalar of that
    /// kind.
    pub fn as_scalar_value<T: ScalarRef>(&self) -> (r: Option<&T>)
        ensures
            r is Some <==> extract::<T>(self@) is Some,
            r is Some ==> extract::<T>(self@) == Some(r.unwrap().as_leaf()),
    {
        match self {
            Value::Scalar(s) => T::pick(s),
            _ => None,
        }
    }

    /// The object, where this is one.
    pub fn as_object_value(&self) -> (r: Option<&Object<S>>)
        ensures
            r is Some <==> self@ is Object,
            r is Some ==> self@ == Tree::Object(r.unwrap()@),
    {
        match self {
            Value::Object(o) => Some(o),
            _ => None,
        }
    }

    /// The object, where this is one, by value.
    pub fn into_object(self) -> (r: Option<Object<S>>)
        ensures
            r is Some <==> self@ is Object,
            r is Some ==> self@ == Tree::Object(r.unwrap()@),
    {
        match self {
            Value::Object(o) => Some(o),
            _ => None,
        }
    }

    /// The object, where this is one, for writing: what is written through
    /// the reference is what this value then holds.
    pub fn as_mut_object_value(&mut self) -> (r: Option<&mut Object<S>>)
        ensures
            r is Some <==> old(self)@ is Object,
            r is Some ==> *old(self) == Value::Object(*r.unwrap()) && *final(self)
                == Value::Object(*final(r.unwrap())),
            r is None ==> *final(self) == *old(self),
    {
        match self {
            Value::Object(o) => Some(o),
            _ => None,
        }
    }

    /// The list, where this is one.
    pub fn as_list_value(&self) -> (r: Option<&Vec<Self>>)
        ensures
            r is Some <==> self@ is List,
            r is Some ==> self@ == Tree::List(trees(r.unwrap()@)),
    {
        match self {
            Value::List(l) => {
                assert(self@->List_0 =~= trees(l@));
                Some(l)
            },
            _ => None,
        }
    }

    /// The scalar, where this is one.
    pub fn as_scalar(&self) -> (r: Option<&S>)
        ensures
            r is Some <==> self@ is Scalar,
            r is Some ==> self@ == Tree::Scalar(r.unwrap().leaf()),
    {
        match self {
            Value::Scalar(s) => Some(s),
            _ => None,
        }
    }

    /// The text, where this is a string scalar.
    pub fn as_string_value(&self) -> (r: Option<&str>)
        ensures
            r is Some <==> (self@ is Scalar && self@->Scalar_0 is Text),
            r is Some ==> self@ == Tree::Scalar(Leaf::Text(r.unwrap()@)),
    {
        match self.as_scalar_value::<String>() {
            Some(s) => Some(s.as_str()),
            None => None,
        }
    }
}

/// The items of `v` in the opposite order.
pub(crate) fn reversed<A>(v: Vec<A>) -> (r: Vec<A>)
    ensures
        r@ == v@.reverse(),
{
    let ghost orig = v@;
    let mut rest = v;
    let mut out: Vec<A> = Vec::new();
    while rest.len() > 0
        invariant
            rest@.len() + out@.len() == orig.len(),
            rest@ == orig.subrange(0, rest@.len() as int),
            forall|k: int| 0 <= k < out@.len() ==> out@[k] == orig[orig.len() - 1 - k],
        decreases rest.len(),
    {
        let item = rest.pop().unwrap();
        out.push(item);
    }
    assert(out@ =~= orig.reverse());
    out
}

impl<S: ScalarValue> Value<S> {
    /// Takes the whole tree into another scalar representation: the shape
    /// and the keys stay, and every leaf goes through the conversion that the
    /// target supplies.
    pub fn map_scalar_value<T: ScalarValue>(self) -> (r: Value<T>)
        ensures
            r@ == adopt_tree::<T>(self@),
        decreases self,
    {
        let ghost whole = self;
        match self {
            Value::Null => Value::Null,
            Value::Scalar(s) => Value::Scalar(into_another(s)),
            Value::List(l) => {
                let ghost orig = l;
                let mut rest = reversed(l);
                let mut out: Vec<Value<T>> = Vec::new();
                while rest.len() > 0
                    invariant
                        whole == self,
                        whole == Value::List(orig),
                        rest@.len() + out@.len() == orig@.len(),
                        rest@ == orig@.reverse().subrange(0, rest@.len() as int),
                        forall|k: int|
                            0 <= k < out@.len() ==> (#[trigger] out@[k])@ == adopt_tree::<T>(
                                orig@[k]@,
                            ),
                    decreases rest.len(),
                {
                    let ghost at = out@.len() as int;
                    let item = rest.pop().unwrap();
                    assert(item == orig[at]);
                    assert(whole->List_0 == orig);
                    out.push(item.map_scalar_value());
                }
                let r = Value::List(out);
                assert(r@->List_0 =~= adopt_tree::<T>(whole@)->List_0);
                r
            },
            Value::Object(o) => {
                let ghost before = o@;
                proof {
                    use_type_invariant(&o);
                }
                let fields = o.key_value_list;
                let ghost orig = fields;
                assert(keyed_trees(orig@) =~= before);
                let mut rest = reversed(fields);
                let mut out: Vec<(String, Value<T>)> = Vec::new();
                while rest.len() > 0
                    invariant
                        whole == self,
                        whole matches Value::Object(o) && o.key_value_list == orig,
                        distinct_keys(before),
                        keyed_trees(orig@) == before,
                        rest@.len() + out@.len() == orig@.len(),
                        rest@ == orig@.reverse().subrange(0, rest@.len() as int),
                        forall|k: int|
                            0 <= k < out@.len() ==> (#[trigger] out@[k]).0@ == orig@[k].0@
                                && out@[k].1@ == adopt_tree::<T>(orig@[k].1@),
                    decreases rest.len(),
                {
                    let ghost at = out@.len() as int;
                    let item = rest.pop().unwrap();
                    assert(item == orig[at]);
                    let key = item.0;
                    let value = item.1;
                    out.push((key, value.map_scalar_value()));
                }
                proof {
                    let after = fields_of(Object { key_value_list: out });
                    assert(after =~= adopt_tree::<T>(whole@)->Object_0) by {
                        assert forall|k: int| 0 <= k < after.len() implies after[k]
                            == adopt_tree::<T>(whole@)->Object_0[k] by {
                            assert(before[k] == (orig@[k].0@, orig@[k].1@));
                        }
                    }
                    assert forall|i: int, j: int|
                        0 <= i < after.len() && 0 <= j < after.len() && i != j implies after[i].0
                        != after[j].0 by {
                        assert(before[i] == (orig@[i].0@, orig@[i].1@));
                        assert(before[j] == (orig@[j].0@, orig@[j].1@));
                    }
                }
                Value::Object(Object { key_value_list: out })
            },
        }
    }
}

/// Taking a value into its own scalar representation changes no node of it.
pub proof fn lemma_map_identity<S: ScalarValue>(v: Value<S>)
    ensures
        adopt_tree::<S>(v@) == v@,
    decreases v,
{
    match v {
        Value::Null => {},
        Value::Scalar(s) => {
            s.lemma_own_long();
        },
        Value::List(l) => {
            assert forall|i: int| 0 <= i < l@.len() implies adopt_tree::<S>(l@[i]@) == l@[i]@ by {
                lemma_map_identity(l[i]);
            }
            assert(adopt_tree::<S>(v@)->List_0 =~= v@->List_0);
        },
        Value::Object(o) => {
            let list = o.key_value_list;
            assert forall|i: int| 0 <= i < list@.len() implies adopt_tree::<S>(list@[i].1@)
                == list@[i].1@ by {
                lemma_map_identity(list[i].1);
            }
            let fields = fields_of(o);
            let taken = adopt_tree::<S>(v@)->Object_0;
            assert(v@ == Tree::Object(fields));
            assert(taken.len() == fields.len());
            assert forall|i: int| 0 <= i < fields.len() implies taken[i] == fields[i] by {
                assert(fields[i] == (list@[i].0@, list@[i].1@));
            }
            assert(taken =~= fields);
        },
    }
}

/// A scalar built from a host value reads back as that host value, in every
/// representation that has the host value's kind.
pub proof fn lemma_scalar_round_trip<S: ScalarValue, T: ScalarRef>(t: T)
    requires
        adopt::<S>(t.as_leaf()) == t.as_leaf(),
    ensures
        extract::<T>(scalar_tree::<S, T>(t)) == Some(t.as_leaf()),
{
    t.lemma_holds_own();
}

} // verus!
