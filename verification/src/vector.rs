//! Vector indexes and vector searches, and their JSON forms.

use crate::attribute_value::AttributeValue;
use crate::float32_vector::{
    attribute_value_to_json, finite, is_query_value, marker_of, one_member, query_json, single_member, Float32Vector,
    Float32VectorError,
};
use crate::json::{bool_of, law_set_member_is_there, member, text_of, unsigned_of, with_member, Json, JsonNumber, JsonV, NumberV};
use vstd::prelude::*;

verus! {

/// The attribute that a vector index is over.
#[derive(Debug)]
pub struct VectorAttribute {
    pub attribute_name: String,
    pub dimensions: u32,
}

/// A vector index of a table. The status and the backfilling flag are only
/// reported, never sent.
#[derive(Debug)]
pub struct VectorIndex {
    pub index_name: String,
    pub vector_attribute: VectorAttribute,
    pub projection: Option<Json>,
    pub similarity_function: Option<String>,
    pub index_status: Option<String>,
    pub backfilling: Option<bool>,
}

/// A change to the vector indexes of a table.
#[derive(Debug)]
pub enum VectorIndexUpdate {
    Create(VectorIndex),
    Delete { index_name: String },
}

/// Which scores a vector search reports.
#[derive(Debug, Clone, Copy, PartialEq, Eq, Structural)]
pub enum ReturnScores {
    Similarity,
}

/// A vector search: the query vector, as a marker or a list of numbers, and
/// the scores to report.
#[derive(Debug)]
pub struct VectorSearch {
    pub query_vector: AttributeValue,
    pub return_scores: Option<ReturnScores>,
}

/// The mathematical value of a [`VectorIndex`].
pub ghost struct VectorIndexV {
    pub index_name: Seq<char>,
    pub attribute_name: Seq<char>,
    pub dimensions: u32,
    pub projection: Option<JsonV>,
    pub similarity_function: Option<Seq<char>>,
    pub index_status: Option<Seq<char>>,
    pub backfilling: Option<bool>,
}

/// The characters of an optional string.
pub open spec fn opt_text(s: Option<String>) -> Option<Seq<char>> {
    match s {
        Some(s) => Some(s@),
        None => None,
    }
}

/// The value of an optional document.
pub open spec fn opt_json(j: Option<Json>) -> Option<JsonV> {
    match j {
        Some(j) => Some(j@),
        None => None,
    }
}

impl View for VectorIndex {
    type V = VectorIndexV;

    open spec fn view(&self) -> VectorIndexV {
        VectorIndexV {
            index_name: self.index_name@,
            attribute_name: self.vector_attribute.attribute_name@,
            dimensions: self.vector_attribute.dimensions,
            projection: opt_json(self.projection),
            similarity_function: opt_text(self.similarity_function),
            index_status: opt_text(self.index_status),
            backfilling: self.backfilling,
        }
    }
}

/// The JSON form of a vector attribute.
pub open spec fn attribute_json(name: Seq<char>, dimensions: u32) -> JsonV {
    with_member(
        single_member("AttributeName"@, JsonV::Text(name)),
        "Dimensions"@,
        JsonV::Number(NumberV::Unsigned(dimensions as u64)),
    )
}

/// The JSON form in which a vector index is sent. What is not set is left out.
pub open spec fn index_json(index: VectorIndexV) -> JsonV {
    let base = with_member(
        single_member("IndexName"@, JsonV::Text(index.index_name)),
        "VectorAttribute"@,
        attribute_json(index.attribute_name, index.dimensions),
    );
    let projected = match index.projection {
        Some(p) => with_member(base, "Projection"@, p),
        None => base,
    };
    match index.similarity_function {
        Some(f) => with_member(projected, "SimilarityFunction"@, JsonV::Text(f)),
        None => projected,
    }
}

/// The JSON form of an update.
pub open spec fn update_json(update: VectorIndexUpdate) -> JsonV {
    match update {
        VectorIndexUpdate::Create(index) => single_member("Create"@, index_json(index@)),
        VectorIndexUpdate::Delete { index_name } => single_member(
            "Delete"@,
            single_member("IndexName"@, JsonV::Text(index_name@)),
        ),
    }
}

/// The JSON form of a search.
pub open spec fn search_json(search: VectorSearch) -> JsonV {
    let base = single_member("QueryVector"@, query_json(search.query_vector));
    match search.return_scores {
        Some(ReturnScores::Similarity) => with_member(
            base,
            "ReturnScores"@,
            JsonV::Text("SIMILARITY"@),
        ),
        None => base,
    }
}

/// The vector index that a response describes: its name and its attribute
/// must be there, the rest is optional.
pub open spec fn index_from(j: JsonV) -> Option<VectorIndexV> {
    let attribute = member(j, "VectorAttribute"@);
    let name = text_of(member(j, "IndexName"@));
    let attribute_name = match attribute {
        Some(a) => text_of(member(a, "AttributeName"@)),
        None => None,
    };
    let dimensions = match attribute {
        Some(a) => unsigned_of(member(a, "Dimensions"@)),
        None => None,
    };
    if name is Some && attribute_name is Some && dimensions is Some && dimensions->0 <= u32::MAX {
        Some(
            VectorIndexV {
                index_name: name->0,
                attribute_name: attribute_name->0,
                dimensions: dimensions->0 as u32,
                projection: member(j, "Projection"@),
                similarity_function: text_of(member(j, "SimilarityFunction"@)),
                index_status: text_of(member(j, "IndexStatus"@)),
                backfilling: bool_of(member(j, "Backfilling"@)),
            },
        )
    } else {
        None
    }
}

impl VectorIndex {
    /// The JSON form in which this index is sent.
    pub fn to_json(&self) -> (r: Json)
        ensures
            r@ == index_json(self@),
    {
        let mut attribute = one_member(
            "AttributeName",
            Json::Text(self.vector_attribute.attribute_name.clone()),
        );
        attribute.set(
            "Dimensions",
            Json::Number(JsonNumber::Unsigned(self.vector_attribute.dimensions as u64)),
        );
        let mut out = one_member("IndexName", Json::Text(self.index_name.clone()));
        out.set("VectorAttribute", attribute);
        if let Some(p) = &self.projection {
            out.set("Projection", p.duplicate());
        }
        if let Some(f) = &self.similarity_function {
            out.set("SimilarityFunction", Json::Text(f.clone()));
        }
        out
    }
}

impl VectorIndexUpdate {
    /// The JSON form in which this update is sent.
    pub fn to_json(&self) -> (r: Json)
        ensures
            r@ == update_json(*self),
    {
        match self {
            VectorIndexUpdate::Create(index) => one_member("Create", index.to_json()),
            VectorIndexUpdate::Delete { index_name } => one_member(
                "Delete",
                one_member("IndexName", Json::Text(index_name.clone())),
            ),
        }
    }
}

/// All values are numbers.
pub open spec fn all_numbers(values: Seq<AttributeValue>) -> bool {
    forall|i: int| 0 <= i < values.len() ==> (#[trigger] values[i]) is N
}

impl VectorSearch {
    /// The query vector has one of the forms that a search takes.
    pub open spec fn valid(self) -> bool {
        is_query_value(self.query_vector)
    }

    /// A search by the vector with these elements, which is sent in compact form.
    pub fn new(values: &[u32]) -> (r: Result<Self, Float32VectorError>)
        ensures
            r is Ok <==> forall|i: int| 0 <= i < values@.len() ==> finite(#[trigger] values@[i]),
            r matches Ok(search) ==> {
                &&& search.valid()
                &&& search.query_vector is B
                &&& search.query_vector->B_0@ == marker_of(values@)
                &&& search.return_scores is None
            },
            r matches Err(e) ==> e == Float32VectorError::NonFiniteValue,
    {
        match Float32Vector::to_attribute_value(values) {
            Ok(query_vector) => Ok(VectorSearch { query_vector, return_scores: None }),
            Err(e) => Err(e),
        }
    }

    /// A search by a list of numbers, which is sent as such; `None` where the
    /// list holds anything else.
    pub fn from_query_vector(values: Vec<AttributeValue>) -> (r: Option<Self>)
        ensures
            r is Some <==> all_numbers(values@),
            r matches Some(search) ==> {
                &&& search.valid()
                &&& search.query_vector == AttributeValue::L(values)
                &&& search.return_scores is None
            },
    {
        let mut i: usize = 0;
        while i < values.len()
            invariant
                i <= values.len(),
                forall|k: int| 0 <= k < i ==> (#[trigger] values@[k]) is N,
            decreases values.len() - i,
        {
            if !matches!(&values[i], AttributeValue::N(_)) {
                assert(!(values@[i as int] is N));
                return None;
            }
            i = i + 1;
        }
        let query_vector = AttributeValue::L(values);
        proof {
            assert forall|k: int| 0 <= k < values@.len() implies is_query_value(
                #[trigger] values@[k],
            ) by {
                assert(values@[k] is N);
            }
        }
        Some(VectorSearch { query_vector, return_scores: None })
    }

    /// The same search, reporting scores.
    pub fn with_return_scores(self, return_scores: ReturnScores) -> (r: Self)
        ensures
            r == (VectorSearch { return_scores: Some(return_scores), ..self }),
    {
        VectorSearch { return_scores: Some(return_scores), ..self }
    }

    /// The JSON form in which this search is sent.
    pub fn to_json(&self) -> (r: Json)
        requires
            self.valid(),
        ensures
            r@ == search_json(*self),
    {
        let mut out = one_member("QueryVector", attribute_value_to_json(&self.query_vector));
        if self.return_scores.is_some() {
            out.set("ReturnScores", Json::Text("SIMILARITY".to_owned()));
        }
        out
    }
}

fn text_member(j: &Json, name: &str) -> (r: Option<String>)
    ensures
        opt_text(r) == text_of(member(j@, name@)),
{
    match j.get(name) {
        Some(v) => match v.as_str() {
            Some(s) => Some(s.to_owned()),
            None => None,
        },
        None => None,
    }
}

/// Reads the description of a vector index out of a response.
pub fn vector_index_from_json(j: &Json) -> (r: Option<VectorIndex>)
    ensures
        r is Some <==> index_from(j@) is Some,
        r matches Some(index) ==> index_from(j@) == Some(index@),
{
    let index_name = match text_member(j, "IndexName") {
        Some(s) => s,
        None => {
            return None;
        },
    };
    let attribute = match j.get("VectorAttribute") {
        Some(a) => a,
        None => {
            return None;
        },
    };
    let attribute_name = match text_member(attribute, "AttributeName") {
        Some(s) => s,
        None => {
            return None;
        },
    };
    let dimensions: u64 = match attribute.get("Dimensions") {
        Some(d) => match d.as_u64() {
            Some(n) => n,
            None => {
                return None;
            },
        },
        None => {
            return None;
        },
    };
    if dimensions > 0xffff_ffff {
        return None;
    }
    let projection = match j.get("Projection") {
        Some(p) => Some(p.duplicate()),
        None => None,
    };
    let backfilling = match j.get("Backfilling") {
        Some(b) => b.as_bool(),
        None => None,
    };
    Some(
        VectorIndex {
            index_name,
            vector_attribute: VectorAttribute { attribute_name, dimensions: dimensions as u32 },
            projection,
            similarity_function: text_member(j, "SimilarityFunction"),
            index_status: text_member(j, "IndexStatus"),
            backfilling,
        },
    )
}

proof fn lemma_member_names()
    ensures
        "IndexName"@ != "VectorAttribute"@,
        "IndexName"@ != "Projection"@,
        "IndexName"@ != "SimilarityFunction"@,
        "IndexName"@ != "IndexStatus"@,
        "IndexName"@ != "Backfilling"@,
        "VectorAttribute"@ != "Projection"@,
        "VectorAttribute"@ != "SimilarityFunction"@,
        "VectorAttribute"@ != "IndexStatus"@,
        "VectorAttribute"@ != "Backfilling"@,
        "Projection"@ != "SimilarityFunction"@,
        "Projection"@ != "IndexStatus"@,
        "Projection"@ != "Backfilling"@,
        "SimilarityFunction"@ != "IndexStatus"@,
        "SimilarityFunction"@ != "Backfilling"@,
        "AttributeName"@ != "Dimensions"@,
        "QueryVector"@ != "ReturnScores"@,
{
    reveal_strlit("IndexName");
    reveal_strlit("VectorAttribute");
    reveal_strlit("Projection");
    reveal_strlit("SimilarityFunction");
    reveal_strlit("IndexStatus");
    reveal_strlit("Backfilling");
    reveal_strlit("AttributeName");
    reveal_strlit("Dimensions");
    reveal_strlit("QueryVector");
    reveal_strlit("ReturnScores");
    assert("IndexName"@.len() == 9);
    assert("VectorAttribute"@.len() == 15);
    assert("Projection"@.len() == 10);
    assert("SimilarityFunction"@.len() == 18);
    assert("IndexStatus"@.len() == 11);
    assert("Backfilling"@.len() == 11);
    assert("AttributeName"@.len() == 13);
    assert("Dimensions"@.len() == 10);
    assert("QueryVector"@.len() == 11);
    assert("ReturnScores"@.len() == 12);
    assert("IndexStatus"@[0] != "Backfilling"@[0]);
    assert("QueryVector"@[0] != "ReturnScores"@[0]);
    assert("AttributeName"@[0] != "Dimensions"@[0]);
}

proof fn lemma_index_members(index: VectorIndexV, name: Seq<char>)
    ensures
        member(index_json(index), name) == (if name == "SimilarityFunction"@ {
            match index.similarity_function {
                Some(f) => Some(JsonV::Text(f)),
                None => None,
            }
        } else if name == "Projection"@ {
            index.projection
        } else if name == "VectorAttribute"@ {
            Some(attribute_json(index.attribute_name, index.dimensions))
        } else if name == "IndexName"@ {
            Some(JsonV::Text(index.index_name))
        } else {
            None
        }),
{
    lemma_member_names();
    let first = single_member("IndexName"@, JsonV::Text(index.index_name));
    let attribute = attribute_json(index.attribute_name, index.dimensions);
    let base = with_member(first, "VectorAttribute"@, attribute);
    assert(with_member(JsonV::Null, "IndexName"@, JsonV::Text(index.index_name)) == first);
    law_set_member_is_there(JsonV::Null, "IndexName"@, JsonV::Text(index.index_name), name);
    law_set_member_is_there(first, "VectorAttribute"@, attribute, name);
    let projected = match index.projection {
        Some(p) => with_member(base, "Projection"@, p),
        None => base,
    };
    if index.projection is Some {
        law_set_member_is_there(base, "Projection"@, index.projection->0, name);
    }
    if index.similarity_function is Some {
        law_set_member_is_there(
            projected,
            "SimilarityFunction"@,
            JsonV::Text(index.similarity_function->0),
            name,
        );
    }
}

proof fn lemma_attribute_members(name: Seq<char>, dimensions: u32)
    ensures
        member(attribute_json(name, dimensions), "AttributeName"@) == Some(JsonV::Text(name)),
        member(attribute_json(name, dimensions), "Dimensions"@) == Some(
            JsonV::Number(NumberV::Unsigned(dimensions as u64)),
        ),
{
    lemma_member_names();
    let first = single_member("AttributeName"@, JsonV::Text(name));
    let number = JsonV::Number(NumberV::Unsigned(dimensions as u64));
    assert(with_member(JsonV::Null, "AttributeName"@, JsonV::Text(name)) == first);
    law_set_member_is_there(
        JsonV::Null,
        "AttributeName"@,
        JsonV::Text(name),
        "AttributeName"@,
    );
    law_set_member_is_there(first, "Dimensions"@, number, "AttributeName"@);
}

/// All that is set in a vector index is sent, each under its name, and what is
/// not set is not.
pub proof fn law_whole_index_is_sent(index: VectorIndexV)
    ensures
        text_of(member(index_json(index), "IndexName"@)) == Some(index.index_name),
        member(index_json(index), "VectorAttribute"@) matches Some(attribute) && {
            &&& text_of(member(attribute, "AttributeName"@)) == Some(index.attribute_name)
            &&& unsigned_of(member(attribute, "Dimensions"@)) == Some(index.dimensions as u64)
        },
        member(index_json(index), "Projection"@) == index.projection,
        index.similarity_function matches Some(f) ==> member(
            index_json(index),
            "SimilarityFunction"@,
        ) == Some(JsonV::Text(f)),
        index.similarity_function is None ==> member(index_json(index), "SimilarityFunction"@)
            is None,
        member(index_json(index), "IndexStatus"@) is None,
        member(index_json(index), "Backfilling"@) is None,
{
    lemma_member_names();
    lemma_index_members(index, "IndexName"@);
    lemma_index_members(index, "VectorAttribute"@);
    lemma_index_members(index, "Projection"@);
    lemma_index_members(index, "SimilarityFunction"@);
    lemma_index_members(index, "IndexStatus"@);
    lemma_index_members(index, "Backfilling"@);
    lemma_attribute_members(index.attribute_name, index.dimensions);
}

/// What is sent of a vector index is read back as the same index. Only the
/// status and the backfilling flag are not sent.
pub proof fn law_sent_index_is_read_back(index: VectorIndexV)
    ensures
        index_from(index_json(index)) == Some(
            VectorIndexV { index_status: None, backfilling: None, ..index },
        ),
{
    law_whole_index_is_sent(index);
}

/// A description is read as a whole: it must have a name, an attribute and
/// dimensions that fit, and everything that it has is reported under its name.
pub proof fn law_whole_description_is_read(j: JsonV, attribute: JsonV, name: Seq<char>, of: Seq<
    char,
>, dimensions: u64)
    requires
        member(j, "IndexName"@) == Some(JsonV::Text(name)),
        member(j, "VectorAttribute"@) == Some(attribute),
        member(attribute, "AttributeName"@) == Some(JsonV::Text(of)),
        unsigned_of(member(attribute, "Dimensions"@)) == Some(dimensions),
    ensures
        index_from(j) is Some <==> dimensions <= 0xffff_ffff,
        index_from(j) matches Some(index) ==> {
            &&& index.index_name == name
            &&& index.attribute_name == of
            &&& index.dimensions == dimensions
            &&& index.projection == member(j, "Projection"@)
            &&& forall|f: Seq<char>|
                member(j, "SimilarityFunction"@) == Some(JsonV::Text(f)) ==>
                    #[trigger] same_text(index.similarity_function, f)
            &&& forall|s: Seq<char>|
                member(j, "IndexStatus"@) == Some(JsonV::Text(s)) ==>
                    #[trigger] same_text(index.index_status, s)
            &&& forall|b: bool|
                member(j, "Backfilling"@) == Some(JsonV::Bool(b)) ==> #[trigger] same_flag(
                    index.backfilling,
                    b,
                )
        },
{
}

/// The text is there, and it is this one.
pub open spec fn same_text(found: Option<Seq<char>>, wanted: Seq<char>) -> bool {
    found == Some(wanted)
}

/// The flag is there, and it is this one.
pub open spec fn same_flag(found: Option<bool>, wanted: bool) -> bool {
    found == Some(wanted)
}

/// An update says what it does: it creates the whole index, or deletes the one
/// of that name.
pub proof fn law_updates_say_what_they_do(update: VectorIndexUpdate)
    ensures
        match update {
            VectorIndexUpdate::Create(index) => member(update_json(update), "Create"@) matches Some(
                sent,
            ) && index_from(sent) == Some(
                VectorIndexV { index_status: None, backfilling: None, ..index@ },
            ),
            VectorIndexUpdate::Delete { index_name } => member(
                update_json(update),
                "Delete"@,
            ) matches Some(sent) && member(sent, "IndexName"@) == Some(JsonV::Text(index_name@)),
        },
{
    match update {
        VectorIndexUpdate::Create(index) => {
            law_sent_index_is_read_back(index@);
            law_set_member_is_there(
                JsonV::Null,
                "Create"@,
                index_json(index@),
                "Create"@,
            );
            assert(with_member(JsonV::Null, "Create"@, index_json(index@)) == update_json(update));
        },
        VectorIndexUpdate::Delete { index_name } => {
            let name = JsonV::Text(index_name@);
            let inner = single_member("IndexName"@, name);
            assert(with_member(JsonV::Null, "IndexName"@, name) == inner);
            assert(with_member(JsonV::Null, "Delete"@, inner) == update_json(update));
            law_set_member_is_there(JsonV::Null, "IndexName"@, name, "IndexName"@);
            law_set_member_is_there(JsonV::Null, "Delete"@, inner, "Delete"@);
        },
    }
}

/// A search sends its query vector, and asks for scores exactly where it is to.
/// A binary vector is sent in base64, a number by its digits, and a list as the
/// list of what each of its elements is sent as, in order.
pub proof fn law_search_is_sent(search: VectorSearch)
    ensures
        member(search_json(search), "QueryVector"@) matches Some(vector) && match search.query_vector {
            AttributeValue::B(bytes) => member(vector, "B"@) == Some(
                JsonV::Text(crate::base64_text::base64_of(bytes@)),
            ),
            AttributeValue::N(number) => member(vector, "N"@) == Some(JsonV::Text(number@)),
            AttributeValue::L(values) => {
                &&& member(vector, "L"@) matches Some(JsonV::Array(sent)) && {
                    &&& sent.len() == values@.len()
                    &&& forall|i: int|
                        0 <= i < sent.len() ==> #[trigger] sent[i] == query_json(values@[i])
                    &&& forall|i: int|
                        0 <= i < sent.len() && values@[i] is N ==> member(
                            #[trigger] sent[i],
                            "N"@,
                        ) == Some(JsonV::Text(values@[i]->N_0@))
                    &&& forall|i: int|
                        0 <= i < sent.len() && values@[i] is B ==> member(
                            #[trigger] sent[i],
                            "B"@,
                        ) == Some(JsonV::Text(crate::base64_text::base64_of(values@[i]->B_0@)))
                }
            },
            _ => true,
        },
        search.return_scores is Some ==> member(search_json(search), "ReturnScores"@) == Some(
            JsonV::Text("SIMILARITY"@),
        ),
        search.return_scores is None ==> member(search_json(search), "ReturnScores"@) is None,
{
    lemma_member_names();
    let vector = query_json(search.query_vector);
    let base = single_member("QueryVector"@, vector);
    assert(with_member(JsonV::Null, "QueryVector"@, vector) == base);
    law_set_member_is_there(JsonV::Null, "QueryVector"@, vector, "ReturnScores"@);
    law_set_member_is_there(
        base,
        "ReturnScores"@,
        JsonV::Text("SIMILARITY"@),
        "QueryVector"@,
    );
    match search.query_vector {
        AttributeValue::B(bytes) => {
            let text = JsonV::Text(crate::base64_text::base64_of(bytes@));
            assert(with_member(JsonV::Null, "B"@, text) == vector);
            law_set_member_is_there(JsonV::Null, "B"@, text, "B"@);
        },
        AttributeValue::L(values) => {
            let list = vector->Object_0[0].1;
            assert(with_member(JsonV::Null, "L"@, list) == vector);
            law_set_member_is_there(JsonV::Null, "L"@, list, "L"@);
            let sent = list->Array_0;
            assert forall|i: int| 0 <= i < sent.len() && values@[i] is N implies member(
                #[trigger] sent[i],
                "N"@,
            ) == Some(JsonV::Text(values@[i]->N_0@)) by {
                let number = JsonV::Text(values@[i]->N_0@);
                assert(sent[i] == query_json(values@[i]));
                assert(with_member(JsonV::Null, "N"@, number) == sent[i]);
                law_set_member_is_there(JsonV::Null, "N"@, number, "N"@);
            }
            assert forall|i: int| 0 <= i < sent.len() && values@[i] is B implies member(
                #[trigger] sent[i],
                "B"@,
            ) == Some(JsonV::Text(crate::base64_text::base64_of(values@[i]->B_0@))) by {
                let text = JsonV::Text(crate::base64_text::base64_of(values@[i]->B_0@));
                assert(sent[i] == query_json(values@[i]));
                assert(with_member(JsonV::Null, "B"@, text) == sent[i]);
                law_set_member_is_there(JsonV::Null, "B"@, text, "B"@);
            }
        },
        AttributeValue::N(number) => {
            let text = JsonV::Text(number@);
            assert(with_member(JsonV::Null, "N"@, text) == vector);
            law_set_member_is_there(JsonV::Null, "N"@, text, "N"@);
        },
        _ => {},
    }
}

/// The value of a vector index has all its parts.
pub proof fn law_value_has_the_whole_index(index: VectorIndex)
    ensures
        index@.index_name == index.index_name@,
        index@.attribute_name == index.vector_attribute.attribute_name@,
        index@.dimensions == index.vector_attribute.dimensions,
        index.projection matches Some(p) ==> index@.projection == Some(p@),
        index.projection is None ==> index@.projection is None,
        index.similarity_function matches Some(f) ==> index@.similarity_function == Some(f@),
        index.similarity_function is None ==> index@.similarity_function is None,
        index.index_status matches Some(s) ==> index@.index_status == Some(s@),
        index.index_status is None ==> index@.index_status is None,
        index@.backfilling == index.backfilling,
{
}

} // verus!
