//! JSON values: what a caller's parameters, the service's answers and the
//! composed resources are made of.
use vstd::prelude::*;

use crate::text::same;

verus! {

/// A JSON number: an integer, or the text of any other number.
#[derive(Debug, PartialEq)]
pub enum Number {
    Unsigned(u64),
    Negative(i64),
    Decimal(String),
}

/// A JSON value. The fields of an object stand in the order in which they are
/// walked; of two with one name the first counts.
#[derive(Debug, PartialEq)]
pub enum Value {
    Null,
    Bool(bool),
    Number(Number),
    String(String),
    Array(Vec<Value>),
    Object(Vec<Field>),
}

/// A field of an object.
#[derive(Debug, PartialEq)]
pub struct Field {
    pub name: String,
    pub value: Value,
}

/// The fields of an object, each a name with its value.
pub type Record = Seq<(Seq<char>, Json)>;

/// What a [`Value`] is.
#[verifier::ext_equal]
pub enum Json {
    Null,
    Bool(bool),
    Integer(int),
    Decimal(Seq<char>),
    Text(Seq<char>),
    List(Seq<Json>),
    Record(Seq<(Seq<char>, Json)>),
}

/// The value of the first field named `key`.
pub open spec fn member(fields: Record, key: Seq<char>) -> Option<Json>
    decreases fields.len(),
{
    if fields.len() == 0 {
        None
    } else if fields[0].0 == key {
        Some(fields[0].1)
    } else {
        member(fields.drop_first(), key)
    }
}

/// A field put behind others counts where none of them has its name.
pub broadcast proof fn member_of_push(fields: Record, field: (Seq<char>, Json), key: Seq<char>)
    ensures
        #[trigger] member(fields.push(field), key) == (match member(fields, key) {
            Some(value) => Some(value),
            None => if field.0 == key {
                Some(field.1)
            } else {
                None
            },
        }),
    decreases fields.len(),
{
    let all = fields.push(field);
    if fields.len() == 0 {
        assert(all.drop_first() =~= fields);
    } else {
        assert(all.drop_first() =~= fields.drop_first().push(field));
        member_of_push(fields.drop_first(), field, key);
    }
}

impl Json {
    /// The field named `key`, where this is an object that has one.
    pub open spec fn get(self, key: Seq<char>) -> Option<Json> {
        match self {
            Json::Record(fields) => member(fields, key),
            _ => None,
        }
    }

    /// The field named `key`, or null.
    pub open spec fn at(self, key: Seq<char>) -> Json {
        match self.get(key) {
            Some(value) => value,
            None => Json::Null,
        }
    }

    /// The characters of a string.
    pub open spec fn as_text(self) -> Option<Seq<char>> {
        match self {
            Json::Text(s) => Some(s),
            _ => None,
        }
    }

    /// The items of an array.
    pub open spec fn as_list(self) -> Option<Seq<Json>> {
        match self {
            Json::List(items) => Some(items),
            _ => None,
        }
    }

    /// An integer that 64 bits can hold without a sign.
    pub open spec fn as_unsigned(self) -> Option<u64> {
        match self {
            Json::Integer(n) => if 0 <= n <= u64::MAX {
                Some(n as u64)
            } else {
                None
            },
            _ => None,
        }
    }
}

impl Value {
    /// What this value is.
    pub open spec fn json(self) -> Json
        decreases self,
    {
        match self {
            Value::Null => Json::Null,
            Value::Bool(b) => Json::Bool(b),
            Value::Number(Number::Unsigned(n)) => Json::Integer(n as int),
            Value::Number(Number::Negative(n)) => Json::Integer(n as int),
            Value::Number(Number::Decimal(s)) => Json::Decimal(s@),
            Value::String(s) => Json::Text(s@),
            Value::Array(items) => Json::List(
                Seq::new(
                    items@.len(),
                    |i: int|
                        if 0 <= i < items@.len() {
                            items@[i].json()
                        } else {
                            Json::Null
                        },
                ),
            ),
            Value::Object(fields) => Json::Record(
                Seq::new(
                    fields@.len(),
                    |i: int|
                        if 0 <= i < fields@.len() {
                            (fields@[i].name@, fields@[i].value.json())
                        } else {
                            (Seq::empty(), Json::Null)
                        },
                ),
            ),
        }
    }
}

impl View for Value {
    type V = Json;

    open spec fn view(&self) -> Json {
        self.json()
    }
}

/// A result with the value in it taken as what it is.
pub open spec fn in_json(r: Result<Value, &'static str>) -> Result<Json, &'static str> {
    match r {
        Ok(value) => Ok(value@),
        Err(e) => Err(e),
    }
}

impl View for Field {
    type V = (Seq<char>, Json);

    open spec fn view(&self) -> (Seq<char>, Json) {
        (self.name@, self.value@)
    }
}

/// What the values of a run are.
pub open spec fn list_of(items: Seq<Value>) -> Seq<Json> {
    Seq::new(items.len(), |i: int| items[i]@)
}

/// What the fields of a run are.
pub open spec fn record_of(fields: Seq<Field>) -> Record {
    Seq::new(fields.len(), |i: int| fields[i]@)
}

/// An array holds what its items are.
pub proof fn array_holds(items: Vec<Value>)
    ensures
        Value::Array(items)@ == Json::List(list_of(items@)),
{
    assert(Value::Array(items)@->List_0 =~= list_of(items@));
}

/// An object holds what its fields are.
pub proof fn object_holds(fields: Vec<Field>)
    ensures
        Value::Object(fields)@ == Json::Record(record_of(fields@)),
{
    assert(Value::Object(fields)@->Record_0 =~= record_of(fields@));
}

impl Value {
    /// A string.
    pub fn text(s: &str) -> (r: Value)
        ensures
            r@ == Json::Text(s@),
    {
        Value::String(s.to_owned())
    }

    /// A number without a sign.
    pub fn unsigned(n: u64) -> (r: Value)
        ensures
            r@ == Json::Integer(n as int),
    {
        Value::Number(Number::Unsigned(n))
    }

    /// True or false.
    pub fn boolean(b: bool) -> (r: Value)
        ensures
            r@ == Json::Bool(b),
    {
        Value::Bool(b)
    }

    /// Null.
    pub fn null() -> (r: Value)
        ensures
            r@ == Json::Null,
    {
        Value::Null
    }

    /// The field named `key`, where this is an object that has one.
    pub fn get(&self, key: &str) -> (r: Option<&Value>)
        ensures
            r is Some <==> self@.get(key@) is Some,
            r is Some ==> r->0@ == self@.get(key@)->0,
    {
        match self {
            Value::Object(fields) => {
                proof {
                    object_holds(*fields);
                }
                let ghost all = record_of(fields@);
                assert(all.skip(0) =~= all);
                for i in 0..fields.len()
                    invariant
                        self@ == Json::Record(all),
                        all == record_of(fields@),
                        member(all, key@) == member(all.skip(i as int), key@),
                {
                    proof {
                        assert(all.skip(i as int).drop_first() =~= all.skip(i + 1));
                        assert(all.skip(i as int)[0] == fields@[i as int]@);
                    }
                    if same(fields[i].name.as_str(), key) {
                        return Some(&fields[i].value);
                    }
                }
                assert(all.skip(fields@.len() as int).len() == 0);
                None
            },
            _ => None,
        }
    }

    /// The characters of a string.
    pub fn as_str(&self) -> (r: Option<&str>)
        ensures
            r is Some <==> self@.as_text() is Some,
            r is Some ==> r->0@ == self@.as_text()->0,
    {
        match self {
            Value::String(s) => Some(s.as_str()),
            _ => None,
        }
    }

    /// The items of an array.
    pub fn as_array(&self) -> (r: Option<&Vec<Value>>)
        ensures
            r is Some <==> self@.as_list() is Some,
            r is Some ==> list_of(r->0@) == self@.as_list()->0,
    {
        match self {
            Value::Array(items) => {
                proof {
                    array_holds(*items);
                }
                Some(items)
            },
            _ => None,
        }
    }

    /// The fields of an object.
    pub fn as_object(&self) -> (r: Option<&Vec<Field>>)
        ensures
            r is Some <==> self@ is Record,
            r is Some ==> self@ == Json::Record(record_of(r->0@)),
    {
        match self {
            Value::Object(fields) => {
                proof {
                    object_holds(*fields);
                }
                Some(fields)
            },
            _ => None,
        }
    }

    /// An integer that 64 bits can hold without a sign.
    pub fn as_u64(&self) -> (r: Option<u64>)
        ensures
            r == self@.as_unsigned(),
    {
        match self {
            Value::Number(Number::Unsigned(n)) => Some(*n),
            Value::Number(Number::Negative(n)) => if *n >= 0 {
                Some(*n as u64)
            } else {
                None
            },
            _ => None,
        }
    }
}

/// The fields of an object in the making.
pub struct Members {
    items: Vec<Field>,
}

impl View for Members {
    type V = Seq<(Seq<char>, Json)>;

    closed spec fn view(&self) -> Seq<(Seq<char>, Json)> {
        record_of(self.items@)
    }
}

impl Members {
    /// No field yet.
    pub fn new() -> (r: Members)
        ensures
            r@ == Seq::<(Seq<char>, Json)>::empty(),
    {
        Members { items: Vec::new() }
    }

    /// One more field, behind those that are there.
    pub fn with(self, name: &str, value: Value) -> (r: Members)
        ensures
            r@ == self@.push((name@, value@)),
    {
        let ghost before = self@;
        let mut items = self.items;
        items.push(Field { name: name.to_owned(), value });
        let r = Members { items };
        assert(r@ =~= before.push((name@, value@)));
        r
    }

    /// The object with these fields.
    pub fn object(self) -> (r: Value)
        ensures
            r@ == Json::Record(self@),
    {
        proof {
            object_holds(self.items);
        }
        Value::Object(self.items)
    }
}

/// The items of an array in the making.
pub struct Items {
    items: Vec<Value>,
}

impl View for Items {
    type V = Seq<Json>;

    closed spec fn view(&self) -> Seq<Json> {
        list_of(self.items@)
    }
}

impl Items {
    /// No item yet.
    pub fn new() -> (r: Items)
        ensures
            r@ == Seq::<Json>::empty(),
    {
        Items { items: Vec::new() }
    }

    /// One more item, behind those that are there.
    pub fn with(self, value: Value) -> (r: Items)
        ensures
            r@ == self@.push(value@),
    {
        let ghost before = self@;
        let mut items = self.items;
        items.push(value);
        let r = Items { items };
        assert(r@ =~= before.push(value@));
        r
    }

    /// The array of these items.
    pub fn array(self) -> (r: Value)
        ensures
            r@ == Json::List(self@),
    {
        proof {
            array_holds(self.items);
        }
        Value::Array(self.items)
    }
}

} // verus!
