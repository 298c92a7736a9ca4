//! Text rendering of values: stable, with lowercase `null`, quoted strings
//! and `, ` between the items of lists and the fields of objects.

use vstd::prelude::*;
use crate::scalar::decimal;
use crate::scalar::render_long;
use crate::scalar::Leaf;
use crate::scalar::ScalarValue;
use crate::value::Tree;
use crate::value::Value;

verus! {

/// The text of a leaf: integers in decimal, booleans as `true` and `false`,
/// strings between double quotes.
pub open spec fn render_leaf(l: Leaf) -> Seq<char> {
    match l {
        Leaf::Int(i) => decimal(i as int),
        Leaf::Long(i) => decimal(i as int),
        Leaf::Text(t) => "\""@ + t + "\""@,
        Leaf::Boolean(b) => if b {
            "true"@
        } else {
            "false"@
        },
    }
}

/// The text of a tree.
pub open spec fn render_tree(t: Tree) -> Seq<char>
    decreases t, 0nat,
{
    match t {
        Tree::Null => "null"@,
        Tree::Scalar(l) => render_leaf(l),
        Tree::List(items) => "["@ + render_items(items, items.len()) + "]"@,
        Tree::Object(fields) => "{"@ + render_fields(fields, fields.len()) + "}"@,
    }
}

/// The texts of the first `n` items, with `, ` between neighbours.
pub open spec fn render_items(items: Seq<Tree>, n: nat) -> Seq<char>
    decreases items, n,
{
    if n == 0 || n > items.len() {
        Seq::empty()
    } else if n == 1 {
        render_tree(items[0])
    } else {
        render_items(items, (n - 1) as nat) + ", "@ + render_tree(items[n - 1])
    }
}

/// The text of one field: the quoted key, `: `, and the text of the value.
pub open spec fn render_field(key: Seq<char>, value: Seq<char>) -> Seq<char> {
    "\""@ + key + "\": "@ + value
}

/// The texts of the first `n` fields, with `, ` between neighbours.
pub open spec fn render_fields(fields: Seq<(Seq<char>, Tree)>, n: nat) -> Seq<char>
    decreases fields, n,
{
    if n == 0 || n > fields.len() {
        Seq::empty()
    } else if n == 1 {
        render_field(fields[0].0, render_tree(fields[0].1))
    } else {
        render_fields(fields, (n - 1) as nat) + ", "@ + render_field(
            fields[n - 1].0,
            render_tree(fields[n - 1].1),
        )
    }
}

/// Renders a scalar of any representation.
pub fn render_scalar<S: ScalarValue>(s: &S) -> (r: String)
    ensures
        r@ == render_leaf(s.leaf()),
{
    if let Some(i) = s.int_ref() {
        render_long(*i as i64)
    } else if let Some(l) = s.long_ref() {
        render_long(*l)
    } else if let Some(b) = s.boolean_ref() {
        if *b {
            "true".to_owned()
        } else {
            "false".to_owned()
        }
    } else {
        let t = s.string_ref();
        let mut r = "\"".to_owned();
        r.append(t.unwrap().as_str());
        r.append("\"");
        r
    }
}

impl<S: ScalarValue> Value<S> {
    /// Renders the value as text.
    pub fn render(&self) -> (r: String)
        ensures
            r@ == render_tree(self@),
        decreases self,
    {
        match self {
            Value::Null => "null".to_owned(),
            Value::Scalar(s) => render_scalar(s),
            Value::List(l) => {
                let ghost items = self@->List_0;
                let mut r = "[".to_owned();
                let ghost mut body = Seq::<char>::empty();
                let mut i: usize = 0;
                while i < l.len()
                    invariant
                        i <= l.len(),
                        self->List_0 == *l,
                        self@ == Tree::List(items),
                        items.len() == l.len(),
                        r@ == "["@ + body,
                        body == render_items(items, i as nat),
                    decreases l.len() - i,
                {
                    if i > 0 {
                        r.append(", ");
                    }
                    let item = l[i].render();
                    assert(l[i as int]@ == items[i as int]);
                    r.append(item.as_str());
                    proof {
                        let next = render_items(items, (i + 1) as nat);
                        assert(r@ =~= "["@ + next);
                        body = next;
                    }
                    i += 1;
                }
                r.append("]");
                r
            },
            Value::Object(o) => {
                let ghost fields = o@;
                let mut r = "{".to_owned();
                let ghost mut body = Seq::<char>::empty();
                let mut i: usize = 0;
                let n = o.field_count();
                while i < n
                    invariant
                        i <= n,
                        n == fields.len(),
                        self is Object,
                        self->Object_0 == *o,
                        fields == o@,
                        r@ == "{"@ + body,
                        body == render_fields(fields, i as nat),
                    decreases n - i,
                {
                    if i > 0 {
                        r.append(", ");
                    }
                    let pair = o.field_at(i).unwrap();
                    assert(decreases_to!(*o => *pair.1));
                    assert(decreases_to!(*self => self->Object_0));
                    let item = pair.1.render();
                    r.append("\"");
                    r.append(pair.0.as_str());
                    r.append("\": ");
                    r.append(item.as_str());
                    proof {
                        let next = render_fields(fields, (i + 1) as nat);
                        assert(r@ =~= "{"@ + next);
                        body = next;
                    }
                    i += 1;
                }
                r.append("}");
                r
            },
        }
    }
}

} // verus!
