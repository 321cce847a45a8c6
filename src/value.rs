use vstd::prelude::*;

verus! {

/// A structured value as it travels between agents: the plain data of a
/// message, a history or a tool argument.
#[derive(Debug)]
pub enum Value {
    Unit,
    Boolean(bool),
    Integer(i64),
    /// A number that is not an integer, kept as its decimal text.
    Number(String),
    String(String),
    /// An attached image, as base64 text of its PNG encoding.
    Image(String),
    Array(Vec<Value>),
    /// Fields in order; a field name appears at most once where a reader relies on it.
    Object(Vec<(String, Value)>),
}

/// The mathematical model of a [`Value`].
pub enum ValueView {
    Unit,
    Boolean(bool),
    Integer(i64),
    Number(Seq<char>),
    String(Seq<char>),
    Image(Seq<char>),
    Array(Seq<ValueView>),
    Object(Seq<(Seq<char>, ValueView)>),
}

/// The model of a value, field by field and element by element.
pub open spec fn view_of(v: Value) -> ValueView
    decreases v,
{
    match v {
        Value::Unit => ValueView::Unit,
        Value::Boolean(b) => ValueView::Boolean(b),
        Value::Integer(i) => ValueView::Integer(i),
        Value::Number(s) => ValueView::Number(s@),
        Value::String(s) => ValueView::String(s@),
        Value::Image(s) => ValueView::Image(s@),
        Value::Array(items) => ValueView::Array(
            Seq::new(items.len() as nat, |i: int| if 0 <= i < items.len() { view_of(items[i]) } else { ValueView::Unit }),
        ),
        Value::Object(fields) => ValueView::Object(
            Seq::new(fields.len() as nat, |i: int| if 0 <= i < fields.len() { (fields[i].0@, view_of(fields[i].1)) } else { (Seq::empty(), ValueView::Unit) }),
        ),
    }
}

impl View for Value {
    type V = ValueView;

    open spec fn view(&self) -> ValueView {
        view_of(*self)
    }
}

/// A deep copy of a value.
fn copy_value(value: &Value) -> (r: Value)
    ensures
        r@ == value@,
    decreases value,
{
        match value {
            Value::Unit => Value::Unit,
            Value::Boolean(b) => Value::Boolean(*b),
            Value::Integer(i) => Value::Integer(*i),
            Value::Number(s) => Value::Number(s.clone()),
            Value::String(s) => Value::String(s.clone()),
            Value::Image(s) => Value::Image(s.clone()),
            Value::Array(v) => {
                let mut out: Vec<Value> = Vec::new();
                let mut i: usize = 0;
                while i < v.len()
                    invariant
                        i <= v.len(),
                        out.len() == i,
                        decreases_to!(*value => *v),
                        forall|j: int| 0 <= j < i ==> #[trigger] out[j]@ == v[j]@,
                    decreases v.len() - i,
                {
                    proof {
                        assert(decreases_to!(*v => v[i as int]));
                        assert(decreases_to!(*value => v[i as int]));
                    }
                    out.push(copy_value(&v[i]));
                    i += 1;
                }
                let r = Value::Array(out);
                assert forall|j: int| 0 <= j < v.len() implies #[trigger] r@->Array_0[j] == value@->Array_0[j] by {
                    assert(out[j]@ == v[j]@);
                }
                assert(r@->Array_0 =~= value@->Array_0);
                r
            },
            Value::Object(v) => {
                let mut out: Vec<(String, Value)> = Vec::new();
                let mut i: usize = 0;
                while i < v.len()
                    invariant
                        i <= v.len(),
                        out.len() == i,
                        decreases_to!(*value => *v),
                        forall|j: int| 0 <= j < i ==> #[trigger] out[j].0@ == v[j].0@ && out[j].1@ == v[j].1@,
                    decreases v.len() - i,
                {
                    proof {
                        assert(decreases_to!(*v => v[i as int]));
                        assert(decreases_to!(*value => v[i as int]));
                    }
                    out.push((v[i].0.clone(), copy_value(&v[i].1)));
                    i += 1;
                }
                let r = Value::Object(out);
                assert(r@->Object_0 =~= value@->Object_0);
                r
            },
        }
}

/// The first field named `key` among `fields`.
pub open spec fn field_of(fields: Seq<(Seq<char>, ValueView)>, key: Seq<char>) -> Option<ValueView>
    decreases fields.len(),
{
    if fields.len() == 0 {
        None
    } else if fields[0].0 == key {
        Some(fields[0].1)
    } else {
        field_of(fields.drop_first(), key)
    }
}

/// The field `key` of an object; nothing for any other value.
pub open spec fn get_field(v: ValueView, key: Seq<char>) -> Option<ValueView> {
    match v {
        ValueView::Object(fields) => field_of(fields, key),
        _ => None,
    }
}

/// The text of a string value.
pub open spec fn text_of(v: Option<ValueView>) -> Option<Seq<char>> {
    match v {
        Some(ValueView::String(s)) => Some(s),
        _ => None,
    }
}

pub proof fn lemma_field_of_index(fields: Seq<(Seq<char>, ValueView)>, key: Seq<char>, i: int)
    requires
        0 <= i < fields.len(),
        fields[i].0 == key,
        forall|j: int| 0 <= j < i ==> fields[j].0 != key,
    ensures
        field_of(fields, key) == Some(fields[i].1),
    decreases i,
{
    if i > 0 {
        lemma_field_of_index(fields.drop_first(), key, i - 1);
    }
}

pub proof fn lemma_field_of_absent(fields: Seq<(Seq<char>, ValueView)>, key: Seq<char>)
    requires
        forall|j: int| 0 <= j < fields.len() ==> fields[j].0 != key,
    ensures
        field_of(fields, key) is None,
    decreases fields.len(),
{
    if fields.len() > 0 {
        lemma_field_of_absent(fields.drop_first(), key);
    }
}

/// Looking a key up in two lists of fields put together.
pub proof fn lemma_field_of_concat(a: Seq<(Seq<char>, ValueView)>, b: Seq<(Seq<char>, ValueView)>, key: Seq<char>)
    ensures
        field_of(a + b, key) == (if field_of(a, key) is Some { field_of(a, key) } else { field_of(b, key) }),
    decreases a.len(),
{
    if a.len() > 0 {
        assert((a + b).drop_first() =~= a.drop_first() + b);
        lemma_field_of_concat(a.drop_first(), b, key);
    } else {
        assert(a + b =~= b);
    }
}

impl Value {
    /// The field `key` of an object: the first one of that name. Nothing when
    /// the value is not an object or has no such field.
    pub fn get(&self, key: &str) -> (r: Option<&Value>)
        ensures
            r is Some == get_field(self@, key@) is Some,
            r is Some ==> r->Some_0@ == get_field(self@, key@)->Some_0,
    {
        let wanted = key.to_owned();
        match self {
            Value::Object(fields) => {
                let mut i: usize = 0;
                while i < fields.len()
                    invariant
                        i <= fields.len(),
                        self@ == ValueView::Object(view_of(*self)->Object_0),
                        wanted@ == key@,
                        forall|j: int| 0 <= j < i ==> fields[j].0@ != key@,
                        view_of(*self)->Object_0.len() == fields.len(),
                        forall|j: int| 0 <= j < fields.len() ==> #[trigger] view_of(*self)->Object_0[j] == (fields[j].0@, fields[j].1@),
                    decreases fields.len() - i,
                {
                    if fields[i].0 == wanted {
                        proof {
                            lemma_field_of_index(self@->Object_0, key@, i as int);
                        }
                        return Some(&fields[i].1);
                    }
                    i += 1;
                }
                proof {
                    lemma_field_of_absent(self@->Object_0, key@);
                }
                None
            },
            _ => None,
        }
    }

    /// The text of the string field `key` of an object.
    pub fn get_str(&self, key: &str) -> (r: Option<&String>)
        ensures
            r is Some == text_of(get_field(self@, key@)) is Some,
            r is Some ==> r->Some_0@ == text_of(get_field(self@, key@))->Some_0,
    {
        match self.get(key) {
            Some(v) => v.as_str(),
            None => None,
        }
    }

    /// The items of an array.
    pub fn as_array(&self) -> (r: Option<&Vec<Value>>)
        ensures
            r is Some == self@ is Array,
            r is Some ==> self@ == Value::Array(*r->Some_0)@,
    {
        match self {
            Value::Array(items) => Some(items),
            _ => None,
        }
    }

    /// The items of the array field `key` of an object.
    pub fn get_array(&self, key: &str) -> (r: Option<&Vec<Value>>)
        ensures
            r is Some == (get_field(self@, key@) is Some && get_field(self@, key@)->Some_0 is Array),
            r is Some ==> get_field(self@, key@)->Some_0 == Value::Array(*r->Some_0)@,
    {
        match self.get(key) {
            Some(v) => v.as_array(),
            None => None,
        }
    }

    /// The text of a string value.
    pub fn as_str(&self) -> (r: Option<&String>)
        ensures
            r is Some == self@ is String,
            r is Some ==> self@ == ValueView::String(r->Some_0@),
    {
        match self {
            Value::String(s) => Some(s),
            _ => None,
        }
    }
}

impl Clone for Value {
    fn clone(&self) -> (r: Self)
        ensures
            r@ == self@,
    {
        copy_value(self)
    }
}

} // verus!
