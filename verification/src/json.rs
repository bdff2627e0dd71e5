//! JSON documents as plain values.
//!
//! A number that was read carries what the library asks of it; floating point
//! values are held by their bits.

use crate::text;
use vstd::prelude::*;

verus! {

/// A JSON number.
#[derive(Debug)]
pub enum JsonNumber {
    /// A number that was read from a document.
    Read {
        /// Its value, where that is an integer in the signed range.
        signed: Option<i64>,
        /// Its value, where that is an integer in the unsigned range.
        unsigned: Option<u64>,
        /// The bits of its double precision value.
        double_bits: u64,
        /// The bits of the single precision value nearest to it.
        single_bits: u32,
        /// Its double precision value in decimal.
        decimal: String,
    },
    /// An integer to be written.
    Unsigned(u64),
    /// A single precision value to be written, by its bits.
    Single(u32),
}

/// A JSON document.
#[derive(Debug)]
pub enum Json {
    Null,
    Bool(bool),
    Number(JsonNumber),
    Text(String),
    Array(Vec<Json>),
    /// An object's members, in order.
    Object(Vec<(String, Json)>),
}

/// The mathematical value of a [`JsonNumber`].
pub ghost enum NumberV {
    Read {
        signed: Option<i64>,
        unsigned: Option<u64>,
        double_bits: u64,
        single_bits: u32,
        decimal: Seq<char>,
    },
    Unsigned(u64),
    Single(u32),
}

/// The mathematical value of a [`Json`].
pub ghost enum JsonV {
    Null,
    Bool(bool),
    Number(NumberV),
    Text(Seq<char>),
    Array(Seq<JsonV>),
    Object(Seq<(Seq<char>, JsonV)>),
}

impl View for JsonNumber {
    type V = NumberV;

    open spec fn view(&self) -> NumberV {
        match self {
            JsonNumber::Read { signed, unsigned, double_bits, single_bits, decimal } => {
                NumberV::Read {
                    signed: *signed,
                    unsigned: *unsigned,
                    double_bits: *double_bits,
                    single_bits: *single_bits,
                    decimal: decimal@,
                }
            },
            JsonNumber::Unsigned(n) => NumberV::Unsigned(*n),
            JsonNumber::Single(bits) => NumberV::Single(*bits),
        }
    }
}

/// The value of a document.
pub open spec fn json_view(j: Json) -> JsonV
    decreases j,
{
    match j {
        Json::Null => JsonV::Null,
        Json::Bool(b) => JsonV::Bool(b),
        Json::Number(n) => JsonV::Number(n@),
        Json::Text(s) => JsonV::Text(s@),
        Json::Array(items) => JsonV::Array(
            Seq::new(
                items@.len(),
                |i: int|
                    if 0 <= i < items@.len() {
                        json_view(items@[i])
                    } else {
                        JsonV::Null
                    },
            ),
        ),
        Json::Object(members) => JsonV::Object(
            Seq::new(
                members@.len(),
                |i: int|
                    if 0 <= i < members@.len() {
                        (members@[i].0@, json_view(members@[i].1))
                    } else {
                        (Seq::empty(), JsonV::Null)
                    },
            ),
        ),
    }
}

impl View for Json {
    type V = JsonV;

    open spec fn view(&self) -> JsonV {
        json_view(*self)
    }
}

/// The position of the member `name`, or the number of members.
pub open spec fn member_at(members: Seq<(Seq<char>, JsonV)>, name: Seq<char>) -> nat
    decreases members.len(),
{
    if members.len() == 0 {
        0
    } else if members[0].0 == name {
        0
    } else {
        1 + member_at(members.drop_first(), name)
    }
}

/// The member `name` of a document.
pub open spec fn member(j: JsonV, name: Seq<char>) -> Option<JsonV> {
    match j {
        JsonV::Object(members) => {
            let i = member_at(members, name);
            if i < members.len() {
                Some(members[i as int].1)
            } else {
                None
            }
        },
        _ => None,
    }
}

/// The document with its member `name` set to `value`: replaced where it is
/// there, else added. Setting a member of `Null` makes it an object.
pub open spec fn with_member(j: JsonV, name: Seq<char>, value: JsonV) -> JsonV {
    match j {
        JsonV::Object(members) => {
            let i = member_at(members, name);
            if i < members.len() {
                JsonV::Object(members.update(i as int, (name, value)))
            } else {
                JsonV::Object(members.push((name, value)))
            }
        },
        _ => JsonV::Object(seq![(name, value)]),
    }
}

/// The document is an object, or `Null`, which becomes one when a member is set.
pub open spec fn takes_members(j: JsonV) -> bool {
    j is Object || j is Null
}

/// The string that the document is.
pub open spec fn text_of(j: Option<JsonV>) -> Option<Seq<char>> {
    match j {
        Some(JsonV::Text(s)) => Some(s),
        _ => None,
    }
}

/// The signed integer that the document is.
pub open spec fn signed_of(j: Option<JsonV>) -> Option<i64> {
    match j {
        Some(JsonV::Number(NumberV::Read { signed, .. })) => signed,
        Some(JsonV::Number(NumberV::Unsigned(n))) => if n <= i64::MAX {
            Some(n as i64)
        } else {
            None
        },
        _ => None,
    }
}

/// The unsigned integer that the document is.
pub open spec fn unsigned_of(j: Option<JsonV>) -> Option<u64> {
    match j {
        Some(JsonV::Number(NumberV::Read { unsigned, .. })) => unsigned,
        Some(JsonV::Number(NumberV::Unsigned(n))) => Some(n),
        _ => None,
    }
}

/// The boolean that the document is.
pub open spec fn bool_of(j: Option<JsonV>) -> Option<bool> {
    match j {
        Some(JsonV::Bool(b)) => Some(b),
        _ => None,
    }
}

/// The elements of the array that the document is.
pub open spec fn array_of(j: Option<JsonV>) -> Option<Seq<JsonV>> {
    match j {
        Some(JsonV::Array(items)) => Some(items),
        _ => None,
    }
}

proof fn lemma_member_at(members: Seq<(Seq<char>, JsonV)>, name: Seq<char>, i: int)
    requires
        0 <= i <= members.len(),
        forall|k: int| 0 <= k < i ==> members[k].0 != name,
        i == members.len() || members[i].0 == name,
    ensures
        member_at(members, name) == i,
    decreases members.len(),
{
    if i > 0 {
        assert(members[0].0 != name);
        assert forall|k: int| 0 <= k < i - 1 implies members.drop_first()[k].0 != name by {
            assert(members.drop_first()[k] == members[k + 1]);
        }
        lemma_member_at(members.drop_first(), name, i - 1);
    }
}

impl JsonNumber {
    /// A copy of this number.
    pub fn duplicate(&self) -> (r: JsonNumber)
        ensures
            r@ == self@,
    {
        match self {
            JsonNumber::Read { signed, unsigned, double_bits, single_bits, decimal } => {
                JsonNumber::Read {
                    signed: *signed,
                    unsigned: *unsigned,
                    double_bits: *double_bits,
                    single_bits: *single_bits,
                    decimal: decimal.clone(),
                }
            },
            JsonNumber::Unsigned(n) => JsonNumber::Unsigned(*n),
            JsonNumber::Single(bits) => JsonNumber::Single(*bits),
        }
    }
}

impl Json {
    /// A copy of this document.
    pub fn duplicate(&self) -> (r: Json)
        ensures
            r@ == self@,
        decreases *self,
    {
        match self {
            Json::Null => Json::Null,
            Json::Bool(b) => Json::Bool(*b),
            Json::Number(n) => Json::Number(n.duplicate()),
            Json::Text(s) => Json::Text(s.clone()),
            Json::Array(items) => {
                let mut out: Vec<Json> = Vec::new();
                let mut i: usize = 0;
                while i < items.len()
                    invariant
                        i <= items.len(),
                        out.len() == i,
                        *self == Json::Array(*items),
                        forall|k: int| 0 <= k < i ==> json_view(out@[k]) == json_view(items@[k]),
                    decreases items.len() - i,
                {
                    let item = &items[i];
                    assert(decreases_to!(*self => self->Array_0));
                    assert(decreases_to!(*items => items[i as int]));
                    out.push(item.duplicate());
                    i = i + 1;
                }
                let r = Json::Array(out);
                assert(r@->Array_0 =~= self@->Array_0);
                r
            },
            Json::Object(members) => {
                let mut out: Vec<(String, Json)> = Vec::new();
                let mut i: usize = 0;
                while i < members.len()
                    invariant
                        i <= members.len(),
                        out.len() == i,
                        *self == Json::Object(*members),
                        forall|k: int|
                            0 <= k < i ==> (#[trigger] out@[k]).0@ == members@[k].0@ && json_view(
                                out@[k].1,
                            ) == json_view(members@[k].1),
                    decreases members.len() - i,
                {
                    let value = &members[i].1;
                    assert(decreases_to!(*self => self->Object_0));
                    assert(decreases_to!(*members => members[i as int]));
                    out.push((members[i].0.clone(), value.duplicate()));
                    i = i + 1;
                }
                let r = Json::Object(out);
                assert(r@->Object_0 =~= self@->Object_0);
                r
            },
        }
    }

    /// The member `name` of this object.
    pub fn get(&self, name: &str) -> (r: Option<&Json>)
        ensures
            r is Some <==> member(self@, name@) is Some,
            r matches Some(v) ==> Some(v@) == member(self@, name@),
            r matches Some(v) ==> decreases_to!(*self => *v),
    {
        match self {
            Json::Object(members) => {
                let mut i: usize = 0;
                while i < members.len()
                    invariant
                        i <= members.len(),
                        *self == Json::Object(*members),
                        forall|k: int| 0 <= k < i ==> (#[trigger] self@->Object_0[k]).0 != name@,
                    decreases members.len() - i,
                {
                    assert(self@->Object_0[i as int].0 == members@[i as int].0@);
                    if text::same(members[i].0.as_str(), name) {
                        proof {
                            lemma_member_at(self@->Object_0, name@, i as int);
                        }
                        return Some(&members[i].1);
                    }
                    i = i + 1;
                }
                proof {
                    lemma_member_at(self@->Object_0, name@, i as int);
                }
                None
            },
            _ => None,
        }
    }

    /// Sets the member `name`.
    pub fn set(&mut self, name: &str, value: Json)
        requires
            takes_members(old(self)@),
        ensures
            final(self)@ == with_member(old(self)@, name@, value@),
    {
        let ghost before = self@;
        let mut members: Vec<(String, Json)> = match self.take() {
            Json::Object(members) => members,
            _ => Vec::new(),
        };
        let ghost seen = json_view(Json::Object(members))->Object_0;
        assert(before is Object ==> seen =~= before->Object_0);
        assert(before is Null ==> seen =~= Seq::empty());
        let mut i: usize = 0;
        while i < members.len()
            invariant
                i <= members.len(),
                seen == json_view(Json::Object(members))->Object_0,
                before == old(self)@,
                takes_members(before),
                before is Object ==> seen == before->Object_0,
                before is Null ==> seen.len() == 0,
                forall|k: int| 0 <= k < i ==> (#[trigger] seen[k]).0 != name@,
            decreases members.len() - i,
        {
            assert(seen[i as int].0 == members@[i as int].0@);
            if text::same(members[i].0.as_str(), name) {
                proof {
                    lemma_member_at(seen, name@, i as int);
                }
                members[i] = (name.to_owned(), value);
                *self = Json::Object(members);
                assert(before is Object);
                assert(self@->Object_0 =~= seen.update(i as int, (name@, value@)));
                return;
            }
            i = i + 1;
        }
        proof {
            lemma_member_at(seen, name@, i as int);
        }
        members.push((name.to_owned(), value));
        *self = Json::Object(members);
        assert(self@->Object_0 =~= seen.push((name@, value@)));
        assert(before is Null ==> self@->Object_0 =~= seq![(name@, value@)]);
    }

    /// Takes the document out, leaving `Null`.
    fn take(&mut self) -> (r: Json)
        ensures
            r == *old(self),
    {
        let mut out = Json::Null;
        core::mem::swap(self, &mut out);
        out
    }

    /// The string that this document is.
    pub fn as_str(&self) -> (r: Option<&str>)
        ensures
            r is Some <==> text_of(Some(self@)) is Some,
            r matches Some(s) ==> Some(s@) == text_of(Some(self@)),
    {
        match self {
            Json::Text(s) => Some(s.as_str()),
            _ => None,
        }
    }

    /// The signed integer that this document is.
    pub fn as_i64(&self) -> (r: Option<i64>)
        ensures
            r == signed_of(Some(self@)),
    {
        match self {
            Json::Number(JsonNumber::Read { signed, .. }) => *signed,
            Json::Number(JsonNumber::Unsigned(n)) => if *n <= 0x7fff_ffff_ffff_ffff {
                Some(*n as i64)
            } else {
                None
            },
            _ => None,
        }
    }

    /// The unsigned integer that this document is.
    pub fn as_u64(&self) -> (r: Option<u64>)
        ensures
            r == unsigned_of(Some(self@)),
    {
        match self {
            Json::Number(JsonNumber::Read { unsigned, .. }) => *unsigned,
            Json::Number(JsonNumber::Unsigned(n)) => Some(*n),
            _ => None,
        }
    }

    /// The boolean that this document is.
    pub fn as_bool(&self) -> (r: Option<bool>)
        ensures
            r == bool_of(Some(self@)),
    {
        match self {
            Json::Bool(b) => Some(*b),
            _ => None,
        }
    }

    /// Whether this document is `Null`.
    pub fn is_null(&self) -> (r: bool)
        ensures
            r == (self@ is Null),
    {
        matches!(self, Json::Null)
    }

    /// The elements of the array that this document is.
    pub fn as_array(&self) -> (r: Option<&Vec<Json>>)
        ensures
            r is Some <==> self@ is Array,
            r matches Some(items) ==> *self == Json::Array(*items),
    {
        match self {
            Json::Array(items) => Some(items),
            _ => None,
        }
    }
}

/// The member of an object is the first of its name.
pub proof fn law_first_member_counts(members: Seq<(Seq<char>, JsonV)>, i: int)
    requires
        0 <= i < members.len(),
        forall|k: int| 0 <= k < i ==> members[k].0 != members[i].0,
    ensures
        member(JsonV::Object(members), members[i].0) == Some(members[i].1),
{
    lemma_member_at(members, members[i].0, i);
}

/// Where no member has the name, there is none, and what is no object has none.
pub proof fn law_missing_member_is_missing(j: JsonV, name: Seq<char>)
    requires
        j is Object ==> forall|k: int|
            0 <= k < j->Object_0.len() ==> (#[trigger] j->Object_0[k]).0 != name,
    ensures
        member(j, name) is None,
{
    if j is Object {
        lemma_member_at(j->Object_0, name, j->Object_0.len() as int);
    }
}

/// A member that was set is there, with the value that was set, and all other
/// members are as they were.
pub proof fn law_set_member_is_there(j: JsonV, name: Seq<char>, value: JsonV, other: Seq<char>)
    ensures
        with_member(j, name, value) is Object,
        member(with_member(j, name, value), name) == Some(value),
        other != name ==> member(with_member(j, name, value), other) == member(j, other),
{
    match j {
        JsonV::Object(members) => {
            let i = member_at(members, name) as int;
            lemma_member_at_found(members, name);
            let after = with_member(j, name, value)->Object_0;
            assert forall|k: int| 0 <= k < i implies after[k].0 != name by {
                assert(after[k] == members[k]);
            }
            lemma_member_at(after, name, i);
            if other != name {
                lemma_member_at_found(members, other);
                let k = member_at(members, other) as int;
                if k < members.len() {
                    assert forall|l: int| 0 <= l < k implies after[l].0 != other by {
                        assert(members[l].0 != other);
                    }
                    assert(after[k] == members[k]);
                    lemma_member_at(after, other, k);
                } else {
                    assert forall|l: int| 0 <= l < after.len() implies after[l].0 != other by {
                        if l < members.len() {
                            assert(members[l].0 != other);
                        }
                    }
                    lemma_member_at(after, other, after.len() as int);
                }
            }
        },
        _ => {
            let after = seq![(name, value)];
            lemma_member_at(after, name, 0);
            if other != name {
                lemma_member_at(after, other, 1);
            }
        },
    }
}

proof fn lemma_member_at_found(members: Seq<(Seq<char>, JsonV)>, name: Seq<char>)
    ensures
        member_at(members, name) <= members.len(),
        forall|k: int| 0 <= k < member_at(members, name) ==> (#[trigger] members[k]).0 != name,
        member_at(members, name) < members.len() ==> members[member_at(members, name) as int].0
            == name,
    decreases members.len(),
{
    if members.len() > 0 && members[0].0 != name {
        lemma_member_at_found(members.drop_first(), name);
        assert forall|k: int| 0 <= k < member_at(members, name) implies (
        #[trigger] members[k]).0 != name by {
            if k > 0 {
                assert(members.drop_first()[k - 1] == members[k]);
            }
        }
    }
}

/// A document is read as what it is, and as nothing else.
pub proof fn law_documents_are_read_as_what_they_are(
    s: Seq<char>,
    b: bool,
    n: u64,
    items: Seq<JsonV>,
    members: Seq<(Seq<char>, JsonV)>,
)
    ensures
        text_of(Some(JsonV::Text(s))) == Some(s),
        bool_of(Some(JsonV::Bool(b))) == Some(b),
        array_of(Some(JsonV::Array(items))) == Some(items),
        unsigned_of(Some(JsonV::Number(NumberV::Unsigned(n)))) == Some(n),
        n <= i64::MAX ==> signed_of(Some(JsonV::Number(NumberV::Unsigned(n)))) == Some(n as i64),
        text_of(Some(JsonV::Bool(b))) is None,
        text_of(Some(JsonV::Null)) is None,
        bool_of(Some(JsonV::Text(s))) is None,
        bool_of(Some(JsonV::Null)) is None,
        array_of(Some(JsonV::Object(members))) is None,
        unsigned_of(Some(JsonV::Text(s))) is None,
        signed_of(Some(JsonV::Text(s))) is None,
        text_of(None) is None && bool_of(None) is None && array_of(None) is None,
        unsigned_of(None) is None && signed_of(None) is None,
{
}

/// A number that was read has the integers that it was read as.
pub proof fn law_read_numbers_have_their_integers(number: NumberV)
    requires
        number is Read,
    ensures
        signed_of(Some(JsonV::Number(number))) == number->signed,
        unsigned_of(Some(JsonV::Number(number))) == number->unsigned,
{
}

/// The value of a document has all of the document.
pub proof fn law_value_has_the_whole_document(j: Json)
    ensures
        match j {
            Json::Null => j@ == JsonV::Null,
            Json::Bool(b) => j@ == JsonV::Bool(b),
            Json::Text(s) => j@ == JsonV::Text(s@),
            Json::Number(JsonNumber::Read { signed, unsigned, double_bits, single_bits, decimal })
                => j@ == JsonV::Number(
                NumberV::Read { signed, unsigned, double_bits, single_bits, decimal: decimal@ },
            ),
            Json::Number(JsonNumber::Unsigned(n)) => j@ == JsonV::Number(NumberV::Unsigned(n)),
            Json::Number(JsonNumber::Single(n)) => j@ == JsonV::Number(NumberV::Single(n)),
            Json::Array(items) => j@ matches JsonV::Array(values) && {
                &&& values.len() == items@.len()
                &&& forall|i: int| 0 <= i < items@.len() ==> #[trigger] values[i] == items@[i]@
            },
            Json::Object(members) => j@ matches JsonV::Object(values) && {
                &&& values.len() == members@.len()
                &&& forall|i: int|
                    0 <= i < members@.len() ==> (#[trigger] values[i]) == (
                        members@[i].0@,
                        members@[i].1@,
                    )
            },
        },
{
}

} // verus!
