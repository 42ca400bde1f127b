//! A network's limits and cost model, read from a snapshot of its settings.
use crate::resources::Network;
use vstd::prelude::*;
use vstd::string::StrSliceExecFns;

verus! {

/// A document.
#[derive(Debug)]
pub enum Json {
    Null,
    Bool(bool),
    /// A number, if it is a whole one in range.
    Number(Option<u64>),
    Text(String),
    List(Vec<Json>),
    Object(Vec<(String, Json)>),
}

/// The mathematical content of a document.
pub enum Doc {
    Null,
    Bool(bool),
    Number(Option<u64>),
    Text(Seq<char>),
    List(Seq<Doc>),
    Object(Seq<(Seq<char>, Doc)>),
}

pub open spec fn contents(v: Json) -> Doc
    decreases v,
{
    match v {
        Json::Null => Doc::Null,
        Json::Bool(b) => Doc::Bool(b),
        Json::Number(n) => Doc::Number(n),
        Json::Text(s) => Doc::Text(s@),
        Json::List(list) => Doc::List(
            Seq::new(
                list@.len(),
                |i: int|
                    if 0 <= i < list@.len() {
                        contents(list@[i])
                    } else {
                        Doc::Null
                    },
            ),
        ),
        Json::Object(pairs) => Doc::Object(
            Seq::new(
                pairs@.len(),
                |i: int|
                    if 0 <= i < pairs@.len() {
                        (pairs@[i].0@, contents(pairs@[i].1))
                    } else {
                        (Seq::empty(), Doc::Null)
                    },
            ),
        ),
    }
}

/// The value under the first key that matches.
pub open spec fn value_under(pairs: Seq<(Seq<char>, Doc)>, key: Seq<char>) -> Option<Doc>
    decreases pairs.len(),
{
    if pairs.len() == 0 {
        None
    } else {
        match value_under(pairs.drop_last(), key) {
            Some(v) => Some(v),
            None => if pairs.last().0 == key {
                Some(pairs.last().1)
            } else {
                None
            },
        }
    }
}

impl Doc {
    /// A field of an object; nothing else has any.
    pub open spec fn field(self, key: Seq<char>) -> Option<Doc> {
        match self {
            Doc::Object(pairs) => value_under(pairs, key),
            _ => None,
        }
    }

    /// A field, or null if there is none.
    pub open spec fn at(self, key: Seq<char>) -> Doc {
        match self.field(key) {
            Some(v) => v,
            None => Doc::Null,
        }
    }
}

impl Json {
    pub fn get(&self, key: &str) -> (value: Option<&Json>)
        ensures
            match value {
                Some(v) => contents(*self).field(key@) == Some(contents(*v)),
                None => contents(*self).field(key@) is None,
            },
    {
        match self {
            Json::Object(pairs) => {
                let wanted: String = key.to_owned();
                let ghost doc = contents(*self)->Object_0;
                let mut i: usize = 0;
                while i < pairs.len()
                    invariant
                        0 <= i <= pairs.len(),
                        wanted@ == key@,
                        *self == Json::Object(*pairs),
                        contents(*self) == Doc::Object(doc),
                        doc.len() == pairs.len(),
                        forall|j: int|
                            0 <= j < doc.len() ==> #[trigger] doc[j] == (
                                pairs@[j].0@,
                                contents(pairs@[j].1),
                            ),
                        value_under(doc.take(i as int), key@) is None,
                    decreases pairs.len() - i,
                {
                    assert(doc.take(i + 1).drop_last() == doc.take(i as int));
                    assert(doc.take(i + 1).last() == doc[i as int]);
                    if pairs[i].0 == wanted {
                        proof {
                            a_found_value_stays(doc, key@, i + 1);
                        }
                        return Some(&pairs[i].1);
                    }
                    i = i + 1;
                }
                assert(doc.take(i as int) == doc);
                None
            },
            _ => None,
        }
    }
}

/// The first match is the one that counts, whatever follows.
proof fn a_found_value_stays(pairs: Seq<(Seq<char>, Doc)>, key: Seq<char>, n: int)
    requires
        0 <= n <= pairs.len(),
        value_under(pairs.take(n), key) is Some,
    ensures
        value_under(pairs, key) == value_under(pairs.take(n), key),
    decreases pairs.len() - n,
{
    if n < pairs.len() {
        assert(pairs.take(n + 1).drop_last() == pairs.take(n));
        a_found_value_stays(pairs, key, n + 1);
    } else {
        assert(pairs.take(n) == pairs);
    }
}

/// A parsed value of serde_json.
#[verifier::external_type_specification]
#[verifier::external_body]
pub struct ExValue(serde_json::Value);

/// What `serde_json::from_str` makes of a text, if it is a document.
pub uninterp spec fn parsed(text: Seq<char>) -> Option<Doc>;

/// What a parsed value holds.
pub uninterp spec fn tree(v: serde_json::Value) -> Doc;

/// One level of a parsed value.
pub enum Shape<'a> {
    Null,
    Bool(bool),
    Number(Option<u64>),
    Text(&'a String),
    List(&'a Vec<serde_json::Value>),
    Object(Vec<(&'a String, &'a serde_json::Value)>),
}

/// Whether `shape` is the top level of `d`.
pub open spec fn is_top_of(shape: Shape, d: Doc) -> bool {
    match shape {
        Shape::Null => d == Doc::Null,
        Shape::Bool(b) => d == Doc::Bool(b),
        Shape::Number(n) => d == Doc::Number(n),
        Shape::Text(s) => d == Doc::Text(s@),
        Shape::List(list) => {
            &&& d is List
            &&& d->List_0.len() == list@.len()
            &&& forall|i: int|
                0 <= i < list@.len() ==> #[trigger] d->List_0[i] == tree(list@[i])
        },
        Shape::Object(pairs) => {
            &&& d is Object
            &&& d->Object_0.len() == pairs@.len()
            &&& forall|i: int|
                0 <= i < pairs@.len() ==> #[trigger] d->Object_0[i] == (
                    pairs@[i].0@,
                    tree(*pairs@[i].1),
                )
        },
    }
}

/// Calls `serde_json::from_str`, which reads a text as a document or finds that it is none. What
/// it reads is a function of the text alone.
#[verifier::external_body]
fn from_str(text: &str) -> (value: Option<serde_json::Value>)
    ensures
        value is Some <==> parsed(text@) is Some,
        value is Some ==> tree(value->0) == parsed(text@)->0,
{
    serde_json::from_str(text).ok()
}

/// Takes a `serde_json::Value` apart: which of its variants it is, with the fields of that
/// variant. A number is given by `serde_json::Number::as_u64`, an object by the pairs of its
/// `serde_json::Map` in their order there.
#[verifier::external_body]
fn shape(v: &serde_json::Value) -> (shape: Shape<'_>)
    ensures
        is_top_of(shape, tree(*v)),
{
    match v {
        serde_json::Value::Null => Shape::Null,
        serde_json::Value::Bool(b) => Shape::Bool(*b),
        serde_json::Value::Number(n) => Shape::Number(n.as_u64()),
        serde_json::Value::String(s) => Shape::Text(s),
        serde_json::Value::Array(list) => Shape::List(list),
        serde_json::Value::Object(fields) => Shape::Object(fields.iter().collect()),
    }
}

/// A parsed value as a document.
fn document(v: &serde_json::Value) -> (doc: Json)
    ensures
        contents(doc) == tree(*v),
    decreases tree(*v),
{
    let ghost d = tree(*v);
    match shape(v) {
        Shape::Null => Json::Null,
        Shape::Bool(b) => Json::Bool(b),
        Shape::Number(n) => Json::Number(n),
        Shape::Text(s) => Json::Text(s.clone()),
        Shape::List(values) => {
            let mut list: Vec<Json> = Vec::new();
            let mut i: usize = 0;
            while i < values.len()
                invariant
                    0 <= i <= values.len(),
                    list.len() == i,
                    d == tree(*v),
                    d is List,
                    d->List_0.len() == values.len(),
                    forall|j: int|
                        0 <= j < values.len() ==> #[trigger] d->List_0[j] == tree(values@[j]),
                    forall|j: int| 0 <= j < i ==> contents(#[trigger] list@[j]) == d->List_0[j],
                decreases values.len() - i,
            {
                assert(d->List_0[i as int] == tree(values@[i as int]));
                list.push(document(&values[i]));
                i = i + 1;
            }
            let doc: Json = Json::List(list);
            assert(contents(doc)->List_0 =~= d->List_0);
            doc
        },
        Shape::Object(fields) => {
            let mut pairs: Vec<(String, Json)> = Vec::new();
            let mut i: usize = 0;
            while i < fields.len()
                invariant
                    0 <= i <= fields.len(),
                    pairs.len() == i,
                    d == tree(*v),
                    d is Object,
                    d->Object_0.len() == fields.len(),
                    forall|j: int|
                        0 <= j < fields.len() ==> #[trigger] d->Object_0[j] == (
                            fields@[j].0@,
                            tree(*fields@[j].1),
                        ),
                    forall|j: int|
                        0 <= j < i ==> d->Object_0[j] == (
                            (#[trigger] pairs@[j]).0@,
                            contents(pairs@[j].1),
                        ),
                decreases fields.len() - i,
            {
                let (key, value): (&String, &serde_json::Value) = fields[i];
                assert(d->Object_0[i as int] == (key@, tree(*value)));
                assert(decreases_to!(d => d->Object_0[i as int].1));
                pairs.push((key.clone(), document(value)));
                i = i + 1;
            }
            let doc: Json = Json::Object(pairs);
            assert(contents(doc)->Object_0 =~= d->Object_0);
            doc
        },
    }
}

/// Reads a text as a document.
pub fn parse(text: &str) -> (doc: Option<Json>)
    ensures
        doc is Some <==> parsed(text@) is Some,
        doc is Some ==> contents(doc->0) == parsed(text@)->0,
{
    match from_str(text) {
        Some(value) => Some(document(&value)),
        None => None,
    }
}

pub open spec fn is_digit(c: char) -> bool {
    '0' <= c <= '9'
}

/// The number that digits write down.
pub open spec fn value_of(digits: Seq<char>) -> int
    decreases digits.len(),
{
    if digits.len() == 0 {
        0
    } else {
        10 * value_of(digits.drop_last()) + (digits.last() as int - '0' as int)
    }
}

/// A text without the plus sign it may start with.
pub open spec fn unsigned(text: Seq<char>) -> Seq<char> {
    if text.len() > 0 && text[0] == '+' {
        text.skip(1)
    } else {
        text
    }
}

/// The number that a text writes down, if it does and the number is in range.
pub open spec fn number_in(text: Seq<char>) -> Option<u64> {
    let digits = unsigned(text);
    if digits.len() > 0 && (forall|i: int| 0 <= i < digits.len() ==> is_digit(#[trigger] digits[i]))
        && value_of(digits) <= u64::MAX {
        Some(value_of(digits) as u64)
    } else {
        None
    }
}

/// More digits never write a smaller number.
proof fn digits_only_add(digits: Seq<char>, n: int)
    requires
        0 <= n <= digits.len(),
        forall|i: int| 0 <= i < digits.len() ==> is_digit(#[trigger] digits[i]),
    ensures
        0 <= value_of(digits.take(n)) <= value_of(digits),
    decreases digits.len(),
{
    if digits.len() > 0 {
        let before = digits.drop_last();
        assert forall|i: int| 0 <= i < before.len() implies is_digit(#[trigger] before[i]) by {
            assert(before[i] == digits[i]);
        }
        assert(is_digit(digits[digits.len() - 1]));
        digits_only_add(before, before.len() as int);
        assert(before.take(before.len() as int) == before);
        if n < digits.len() {
            digits_only_add(before, n);
            assert(before.take(n) == digits.take(n));
        } else {
            assert(digits.take(n) == digits);
        }
    } else {
        assert(digits.take(n) == digits);
    }
}

/// Reads a whole number.
pub fn parse_number(text: &str) -> (number: Option<u64>)
    ensures
        number == number_in(text@),
{
    let n: usize = text.unicode_len();
    let first: usize = if n > 0 && text.get_char(0) == '+' {
        1
    } else {
        0
    };
    if first == n {
        return None;
    }
    let ghost digits = unsigned(text@);
    assert(digits.len() == n - first);
    assert(forall|i: int| 0 <= i < digits.len() ==> digits[i] == text@[i + first]);
    let mut number: u64 = 0;
    let mut i: usize = first;
    while i < n
        invariant
            first <= i <= n,
            n == text@.len(),
            first <= 1,
            digits == unsigned(text@),
            digits.len() == n - first,
            forall|k: int| 0 <= k < digits.len() ==> digits[k] == text@[k + first],
            forall|k: int| 0 <= k < i - first ==> is_digit(#[trigger] digits[k]),
            number == value_of(digits.take(i - first)),
        decreases n - i,
    {
        let c: char = text.get_char(i);
        assert(digits[i - first] == c);
        if c < '0' || c > '9' {
            return None;
        }
        let digit: u64 = c as u64 - '0' as u64;
        assert(digits.take(i - first + 1).drop_last() == digits.take(i - first));
        if number > (u64::MAX - digit) / 10 {
            proof {
                if forall|k: int| 0 <= k < digits.len() ==> is_digit(#[trigger] digits[k]) {
                    digits_only_add(digits, i - first + 1);
                }
            }
            return None;
        }
        number = 10 * number + digit;
        i = i + 1;
    }
    assert(digits.take(i - first) == digits);
    Some(number)
}

/// A number, written as one or as a text.
pub open spec fn number_of(v: Doc) -> Option<u64> {
    match v {
        Doc::Text(s) => number_in(s),
        Doc::Number(n) => n,
        _ => None,
    }
}

/// Reads a number. Those of 64 bits are written as texts, those of 32 bits as numbers.
pub fn num(v: &Json) -> (number: Option<u64>)
    ensures
        number == number_of(contents(*v)),
{
    match v {
        Json::Text(s) => parse_number(s.as_str()),
        Json::Number(n) => *n,
        _ => None,
    }
}

/// The number in a field.
fn num_at(v: &Json, key: &str) -> (number: Option<u64>)
    ensures
        number == number_of(contents(*v).at(key@)),
{
    match v.get(key) {
        Some(field) => num(field),
        None => None,
    }
}

/// The first entry that has the field.
pub open spec fn first_with(entries: Seq<Doc>, name: Seq<char>) -> Option<Doc>
    decreases entries.len(),
{
    if entries.len() == 0 {
        None
    } else {
        match first_with(entries.drop_last(), name) {
            Some(v) => Some(v),
            None => entries.last().field(name),
        }
    }
}

/// One setting out of a snapshot.
pub open spec fn setting_of(doc: Doc, name: Seq<char>) -> Option<Doc> {
    match doc.at("settings"@).at("updated_entry"@) {
        Doc::List(entries) => first_with(entries, name),
        _ => None,
    }
}

proof fn a_found_setting_stays(entries: Seq<Doc>, name: Seq<char>, n: int)
    requires
        0 <= n <= entries.len(),
        first_with(entries.take(n), name) is Some,
    ensures
        first_with(entries, name) == first_with(entries.take(n), name),
    decreases entries.len() - n,
{
    if n < entries.len() {
        assert(entries.take(n + 1).drop_last() == entries.take(n));
        a_found_setting_stays(entries, name, n + 1);
    } else {
        assert(entries.take(n) == entries);
    }
}

/// One setting out of a snapshot, if it is there.
pub fn setting<'a>(doc: &'a Json, name: &str) -> (value: Option<&'a Json>)
    ensures
        match value {
            Some(v) => setting_of(contents(*doc), name@) == Some(contents(*v)),
            None => setting_of(contents(*doc), name@) is None,
        },
{
    let settings: &Json = match doc.get("settings") {
        Some(settings) => settings,
        None => {
            return None;
        },
    };
    let entries: &Json = match settings.get("updated_entry") {
        Some(entries) => entries,
        None => {
            return None;
        },
    };
    match entries {
        Json::List(list) => {
            let ghost docs = contents(*entries)->List_0;
            let mut i: usize = 0;
            while i < list.len()
                invariant
                    0 <= i <= list.len(),
                    docs.len() == list.len(),
                    forall|j: int| 0 <= j < docs.len() ==> #[trigger] docs[j] == contents(list@[j]),
                    setting_of(contents(*doc), name@) == first_with(docs, name@),
                    first_with(docs.take(i as int), name@) is None,
                decreases list.len() - i,
            {
                assert(docs.take(i + 1).drop_last() == docs.take(i as int));
                assert(docs.take(i + 1).last() == docs[i as int]);
                if let Some(v) = list[i].get(name) {
                    proof {
                        a_found_setting_stays(docs, name@, i + 1);
                    }
                    return Some(v);
                }
                i = i + 1;
            }
            assert(docs.take(i as int) == docs);
            None
        },
        _ => None,
    }
}

/// One pair of cost terms.
pub open spec fn terms_of(v: Doc) -> Option<(u64, u64)> {
    match (number_of(v.at("const_term"@)), number_of(v.at("linear_term"@))) {
        (Some(constant), Some(linear)) => Some((constant, linear)),
        _ => None,
    }
}

/// The cost terms of every cost type, if all of them can be read.
pub open spec fn params_of(doc: Doc, name: Seq<char>) -> Option<Seq<(u64, u64)>> {
    match setting_of(doc, name) {
        Some(Doc::List(list)) => if forall|i: int|
            0 <= i < list.len() ==> terms_of(#[trigger] list[i]) is Some {
            Some(Seq::new(list.len(), |i: int| terms_of(list[i])->0))
        } else {
            None
        },
        _ => None,
    }
}

/// The cost terms of every cost type.
pub fn params(doc: &Json, name: &str) -> (terms: Option<Vec<(u64, u64)>>)
    ensures
        match terms {
            Some(terms) => params_of(contents(*doc), name@) == Some(terms@),
            None => params_of(contents(*doc), name@) is None,
        },
{
    let value: &Json = match setting(doc, name) {
        Some(value) => value,
        None => {
            return None;
        },
    };
    match value {
        Json::List(list) => {
            let ghost docs = contents(*value)->List_0;
            let mut terms: Vec<(u64, u64)> = Vec::new();
            let mut i: usize = 0;
            while i < list.len()
                invariant
                    0 <= i <= list.len(),
                    setting_of(contents(*doc), name@) == Some(Doc::List(docs)),
                    docs.len() == list.len(),
                    forall|j: int| 0 <= j < docs.len() ==> #[trigger] docs[j] == contents(list@[j]),
                    terms.len() == i,
                    forall|k: int| 0 <= k < i ==> terms_of(#[trigger] docs[k]) == Some(terms@[k]),
                decreases list.len() - i,
            {
                assert(docs[i as int] == contents(list@[i as int]));
                let constant: Option<u64> = num_at(&list[i], "const_term");
                let linear: Option<u64> = num_at(&list[i], "linear_term");
                match (constant, linear) {
                    (Some(constant), Some(linear)) => {
                        terms.push((constant, linear));
                    },
                    _ => {
                        assert(terms_of(docs[i as int]) is None);
                        return None;
                    },
                }
                i = i + 1;
            }
            proof {
                assert(params_of(contents(*doc), name@)->0 =~= terms@);
            }
            Some(terms)
        },
        _ => None,
    }
}

/// A number inside one setting.
pub open spec fn limit_of(doc: Doc, name: Seq<char>, key: Seq<char>) -> Option<u64> {
    match setting_of(doc, name) {
        Some(v) => number_of(v.at(key)),
        None => None,
    }
}

fn limit(doc: &Json, name: &str, key: &str) -> (number: Option<u64>)
    ensures
        number == limit_of(contents(*doc), name@, key@),
{
    match setting(doc, name) {
        Some(value) => num_at(value, key),
        None => None,
    }
}

/// Whether `n` is what the snapshot says, entry by entry.
pub open spec fn describes(doc: Doc, n: Network) -> bool {
    let compute = "contract_compute_v0"@;
    let cost = "contract_ledger_cost_v0"@;
    &&& doc.at("network"@) is Text
    &&& doc.at("network"@)->Text_0 == n.name@
    &&& number_of(doc.at("latest_ledger"@)) == Some(n.ledger)
    &&& number_of(doc.at("protocol_version"@)) == Some(n.protocol)
    &&& limit_of(doc, compute, "tx_max_instructions"@) == Some(n.tx_max_instructions)
    &&& limit_of(doc, compute, "tx_memory_limit"@) == Some(n.tx_memory_limit)
    &&& limit_of(doc, "contract_ledger_cost_ext_v0"@, "tx_max_footprint_entries"@) == Some(
        n.tx_max_footprint_entries,
    )
    &&& limit_of(doc, cost, "tx_max_disk_read_entries"@) == Some(n.tx_max_disk_read_entries)
    &&& limit_of(doc, cost, "tx_max_write_ledger_entries"@) == Some(n.tx_max_write_entries)
    &&& limit_of(doc, cost, "tx_max_disk_read_bytes"@) == Some(n.tx_max_disk_read_bytes)
    &&& limit_of(doc, cost, "tx_max_write_bytes"@) == Some(n.tx_max_write_bytes)
    &&& limit_of(doc, "contract_events_v0"@, "tx_max_contract_events_size_bytes"@) == Some(
        n.tx_max_contract_events_size_bytes,
    )
    &&& limit_of(doc, "contract_bandwidth_v0"@, "tx_max_size_bytes"@) == Some(n.tx_max_size_bytes)
    &&& params_of(doc, "contract_cost_params_cpu_instructions"@) == Some(n.cpu_params@)
    &&& params_of(doc, "contract_cost_params_memory_bytes"@) == Some(n.mem_params@)
}

/// Whether everything that is looked for is there.
pub open spec fn is_complete(doc: Doc) -> bool {
    let compute = "contract_compute_v0"@;
    let cost = "contract_ledger_cost_v0"@;
    &&& doc.at("network"@) is Text
    &&& number_of(doc.at("latest_ledger"@)) is Some
    &&& number_of(doc.at("protocol_version"@)) is Some
    &&& limit_of(doc, compute, "tx_max_instructions"@) is Some
    &&& limit_of(doc, compute, "tx_memory_limit"@) is Some
    &&& limit_of(doc, "contract_ledger_cost_ext_v0"@, "tx_max_footprint_entries"@) is Some
    &&& limit_of(doc, cost, "tx_max_disk_read_entries"@) is Some
    &&& limit_of(doc, cost, "tx_max_write_ledger_entries"@) is Some
    &&& limit_of(doc, cost, "tx_max_disk_read_bytes"@) is Some
    &&& limit_of(doc, cost, "tx_max_write_bytes"@) is Some
    &&& limit_of(doc, "contract_events_v0"@, "tx_max_contract_events_size_bytes"@) is Some
    &&& limit_of(doc, "contract_bandwidth_v0"@, "tx_max_size_bytes"@) is Some
    &&& params_of(doc, "contract_cost_params_cpu_instructions"@) is Some
    &&& params_of(doc, "contract_cost_params_memory_bytes"@) is Some
}

/// Reads a network's limits and cost model out of a snapshot of its settings.
pub fn mainnet(doc: &Json) -> (network: Option<Network>)
    ensures
        network is Some <==> is_complete(contents(*doc)),
        network is Some ==> describes(contents(*doc), network->0),
{
    let name: String = match doc.get("network") {
        Some(Json::Text(name)) => name.clone(),
        _ => {
            return None;
        },
    };
    let compute: &str = "contract_compute_v0";
    let cost: &str = "contract_ledger_cost_v0";
    let network: Network = Network {
        name,
        ledger: num_at(doc, "latest_ledger")?,
        protocol: num_at(doc, "protocol_version")?,
        tx_max_instructions: limit(doc, compute, "tx_max_instructions")?,
        tx_memory_limit: limit(doc, compute, "tx_memory_limit")?,
        tx_max_footprint_entries: limit(
            doc,
            "contract_ledger_cost_ext_v0",
            "tx_max_footprint_entries",
        )?,
        tx_max_disk_read_entries: limit(doc, cost, "tx_max_disk_read_entries")?,
        tx_max_write_entries: limit(doc, cost, "tx_max_write_ledger_entries")?,
        tx_max_disk_read_bytes: limit(doc, cost, "tx_max_disk_read_bytes")?,
        tx_max_write_bytes: limit(doc, cost, "tx_max_write_bytes")?,
        tx_max_contract_events_size_bytes: limit(
            doc,
            "contract_events_v0",
            "tx_max_contract_events_size_bytes",
        )?,
        tx_max_size_bytes: limit(doc, "contract_bandwidth_v0", "tx_max_size_bytes")?,
        cpu_params: params(doc, "contract_cost_params_cpu_instructions")?,
        mem_params: params(doc, "contract_cost_params_memory_bytes")?,
    };
    Some(network)
}

/// Reads a network's limits and cost model out of the text of a snapshot.
pub fn network(snapshot: &str) -> (network: Option<Network>)
    ensures
        parsed(snapshot@) is None ==> network is None,
        parsed(snapshot@) matches Some(d) ==> (network is Some <==> is_complete(d)),
        network is Some ==> describes(parsed(snapshot@)->0, network->0),
{
    match parse(snapshot) {
        Some(doc) => mainnet(&doc),
        None => None,
    }
}

/// A field is the value of the first pair with its key, and missing if there is no such pair.
pub proof fn the_first_pair_counts(pairs: Seq<(Seq<char>, Doc)>, key: Seq<char>, i: int)
    requires
        0 <= i < pairs.len(),
        pairs[i].0 == key,
        forall|j: int| 0 <= j < i ==> (#[trigger] pairs[j]).0 != key,
    ensures
        Doc::Object(pairs).field(key) == Some(pairs[i].1),
        Doc::Object(pairs).at(key) == pairs[i].1,
    decreases pairs.len(),
{
    let before = pairs.drop_last();
    if i < before.len() {
        assert forall|j: int| 0 <= j < i implies (#[trigger] before[j]).0 != key by {
            assert(before[j] == pairs[j]);
        }
        the_first_pair_counts(before, key, i);
    } else {
        no_pair_no_value(before, key);
    }
}

proof fn no_pair_no_value(pairs: Seq<(Seq<char>, Doc)>, key: Seq<char>)
    requires
        forall|j: int| 0 <= j < pairs.len() ==> (#[trigger] pairs[j]).0 != key,
    ensures
        value_under(pairs, key) is None,
    decreases pairs.len(),
{
    if pairs.len() > 0 {
        let before = pairs.drop_last();
        assert forall|j: int| 0 <= j < before.len() implies (#[trigger] before[j]).0 != key by {
            assert(before[j] == pairs[j]);
        }
        no_pair_no_value(before, key);
        assert(pairs[pairs.len() - 1].0 != key);
    }
}

/// What is not there cannot be read: an object without the key, or anything else, has no such
/// field, and reads as null there.
pub proof fn a_missing_field_is_null(d: Doc, key: Seq<char>)
    requires
        d matches Doc::Object(pairs) ==> forall|j: int|
            0 <= j < pairs.len() ==> (#[trigger] pairs[j]).0 != key,
    ensures
        d.field(key) is None,
        d.at(key) == Doc::Null,
{
    if let Doc::Object(pairs) = d {
        no_pair_no_value(pairs, key);
    }
}

/// A setting is the field of the first entry that has it.
pub proof fn the_first_entry_counts(doc: Doc, entries: Seq<Doc>, name: Seq<char>, i: int)
    requires
        doc.at("settings"@).at("updated_entry"@) == Doc::List(entries),
        0 <= i < entries.len(),
        entries[i].field(name) is Some,
        forall|j: int| 0 <= j < i ==> (#[trigger] entries[j]).field(name) is None,
    ensures
        setting_of(doc, name) == entries[i].field(name),
{
    first_with_counts(entries, name, i);
}

proof fn first_with_counts(entries: Seq<Doc>, name: Seq<char>, i: int)
    requires
        0 <= i <= entries.len(),
        i < entries.len() ==> entries[i].field(name) is Some,
        forall|j: int| 0 <= j < i ==> (#[trigger] entries[j]).field(name) is None,
    ensures
        i < entries.len() ==> first_with(entries, name) == entries[i].field(name),
        i == entries.len() ==> first_with(entries, name) is None,
    decreases entries.len(),
{
    if entries.len() > 0 {
        let before = entries.drop_last();
        if i < before.len() {
            assert forall|j: int| 0 <= j < i implies (#[trigger] before[j]).field(name) is None by {
                assert(before[j] == entries[j]);
            }
            first_with_counts(before, name, i);
        } else {
            assert forall|j: int| 0 <= j < before.len() implies (#[trigger] before[j]).field(
                name,
            ) is None by {
                assert(before[j] == entries[j]);
            }
            first_with_counts(before, name, before.len() as int);
        }
    }
}

/// How numbers are written: one more digit multiplies by ten and adds the digit, a single digit is
/// itself, a plus sign in front changes nothing, and a text with anything else in it, or without a
/// digit, is no number.
pub proof fn digits_write_numbers(text: Seq<char>, c: char)
    ensures
        '0' <= c <= '9' ==> number_in(seq![c]) == Some((c as int - '0' as int) as u64),
        number_in(Seq::empty()) is None,
        number_in(seq!['+']) is None,
        text.len() > 0 && text[0] != '+' ==> number_in(seq!['+'] + text) == number_in(text),
        number_in(text) is Some && '0' <= c <= '9' ==> {
            let more = 10 * number_in(text)->0 + (c as int - '0' as int);
            number_in(text.push(c)) == (if more <= u64::MAX {
                Some(more as u64)
            } else {
                None
            })
        },
        text.len() > 0 && !('0' <= c <= '9') ==> number_in(text.push(c)) is None,
{
    let one = seq![c];
    assert(unsigned(one) == (if c == '+' {
        Seq::<char>::empty()
    } else {
        one
    })) by {
        assert(one.skip(1) =~= Seq::<char>::empty());
    }
    assert(one.drop_last() =~= Seq::<char>::empty());
    assert(value_of(Seq::<char>::empty()) == 0);
    if '0' <= c <= '9' {
        assert(value_of(one) == c as int - '0' as int);
        assert forall|i: int| 0 <= i < one.len() implies is_digit(#[trigger] one[i]) by {}
    }
    assert(seq!['+'].skip(1) =~= Seq::<char>::empty());
    if text.len() > 0 && text[0] != '+' {
        assert((seq!['+'] + text).skip(1) =~= text);
    }
    if text.len() > 0 {
        let digits = unsigned(text);
        assert(unsigned(text.push(c)) =~= digits.push(c));
        assert(digits.push(c).drop_last() =~= digits);
        if number_in(text) is Some && '0' <= c <= '9' {
            digits_only_add(digits, 0);
            assert forall|i: int| 0 <= i < digits.push(c).len() implies is_digit(
                #[trigger] digits.push(c)[i],
            ) by {
                if i < digits.len() {
                    assert(is_digit(digits[i]));
                }
            }
        }
        if !('0' <= c <= '9') {
            assert(!is_digit(digits.push(c)[digits.len() as int]));
        }
    }
}

/// A number may be given as a text or as a number, and as nothing else.
pub proof fn numbers_have_two_forms(v: Doc)
    ensures
        v matches Doc::Text(text) ==> number_of(v) == number_in(text),
        v matches Doc::Number(n) ==> number_of(v) == n,
        v is Null || v is Bool || v is List || v is Object ==> number_of(v) is None,
{
}

/// The cost terms are read type by type, in order, each as its constant and its linear term; if one
/// cannot be read, none is.
pub proof fn cost_terms_are_read_in_order(doc: Doc, name: Seq<char>, list: Seq<Doc>, i: int)
    requires
        setting_of(doc, name) == Some(Doc::List(list)),
        0 <= i < list.len(),
    ensures
        params_of(doc, name) matches Some(terms) ==> {
            &&& terms.len() == list.len()
            &&& number_of(list[i].at("const_term"@)) == Some(terms[i].0)
            &&& number_of(list[i].at("linear_term"@)) == Some(terms[i].1)
        },
        number_of(list[i].at("const_term"@)) is None || number_of(
            list[i].at("linear_term"@),
        ) is None ==> params_of(doc, name) is None,
{
    if params_of(doc, name) is Some {
        assert(terms_of(list[i]) is Some);
    }
}

/// A snapshot describes a network if and only if everything that is looked for is there, and then
/// it describes no two different ones.
pub proof fn a_snapshot_describes_one_network(doc: Doc, a: Network, b: Network)
    ensures
        describes(doc, a) ==> is_complete(doc),
        describes(doc, a) && describes(doc, b) ==> {
            &&& a.name@ == b.name@
            &&& a.ledger == b.ledger && a.protocol == b.protocol
            &&& a.limits() == b.limits()
            &&& a.cpu_params@ == b.cpu_params@ && a.mem_params@ == b.mem_params@
        },
{
    if describes(doc, a) && describes(doc, b) {
        assert(a.limits() =~= b.limits());
    }
}

/// Each of a network's limits is read from the setting that holds it, under its own key.
pub proof fn each_limit_has_its_place(doc: Doc, n: Network, setting: Doc)
    requires
        describes(doc, n),
    ensures
        number_of(doc.at("latest_ledger"@)) == Some(n.ledger),
        number_of(doc.at("protocol_version"@)) == Some(n.protocol),
        doc.at("network"@) == Doc::Text(n.name@),
        setting_of(doc, "contract_compute_v0"@) == Some(setting) ==> {
            &&& number_of(setting.at("tx_max_instructions"@)) == Some(n.tx_max_instructions)
            &&& number_of(setting.at("tx_memory_limit"@)) == Some(n.tx_memory_limit)
        },
        setting_of(doc, "contract_ledger_cost_v0"@) == Some(setting) ==> {
            &&& number_of(setting.at("tx_max_disk_read_entries"@)) == Some(
                n.tx_max_disk_read_entries,
            )
            &&& number_of(setting.at("tx_max_write_ledger_entries"@)) == Some(
                n.tx_max_write_entries,
            )
            &&& number_of(setting.at("tx_max_disk_read_bytes"@)) == Some(n.tx_max_disk_read_bytes)
            &&& number_of(setting.at("tx_max_write_bytes"@)) == Some(n.tx_max_write_bytes)
        },
        setting_of(doc, "contract_ledger_cost_ext_v0"@) == Some(setting) ==> number_of(
            setting.at("tx_max_footprint_entries"@),
        ) == Some(n.tx_max_footprint_entries),
        setting_of(doc, "contract_events_v0"@) == Some(setting) ==> number_of(
            setting.at("tx_max_contract_events_size_bytes"@),
        ) == Some(n.tx_max_contract_events_size_bytes),
        setting_of(doc, "contract_bandwidth_v0"@) == Some(setting) ==> number_of(
            setting.at("tx_max_size_bytes"@),
        ) == Some(n.tx_max_size_bytes),
        params_of(doc, "contract_cost_params_cpu_instructions"@) == Some(n.cpu_params@),
        params_of(doc, "contract_cost_params_memory_bytes"@) == Some(n.mem_params@),
{
}

/// A document's content mirrors it: the same kind, the same texts and numbers, and lists and objects
/// item by item in the same order.
pub proof fn contents_mirror_the_document(v: Json, i: int)
    ensures
        v is Null <==> contents(v) is Null,
        v matches Json::Bool(b) ==> contents(v) == Doc::Bool(b),
        v matches Json::Number(n) ==> contents(v) == Doc::Number(n),
        v matches Json::Text(text) ==> contents(v) == Doc::Text(text@),
        v matches Json::List(list) ==> {
            &&& contents(v) is List
            &&& contents(v)->List_0.len() == list.len()
            &&& 0 <= i < list.len() ==> contents(v)->List_0[i] == contents(list@[i])
        },
        v matches Json::Object(pairs) ==> {
            &&& contents(v) is Object
            &&& contents(v)->Object_0.len() == pairs.len()
            &&& 0 <= i < pairs.len() ==> contents(v)->Object_0[i] == (
                pairs@[i].0@,
                contents(pairs@[i].1),
            )
        },
{
}

/// If every cost type's terms can be read, all of them are.
pub proof fn readable_terms_are_read(doc: Doc, name: Seq<char>, list: Seq<Doc>)
    requires
        setting_of(doc, name) == Some(Doc::List(list)),
        forall|i: int|
            0 <= i < list.len() ==> number_of((#[trigger] list[i]).at("const_term"@)) is Some
                && number_of(list[i].at("linear_term"@)) is Some,
    ensures
        params_of(doc, name) is Some,
        params_of(doc, name)->0.len() == list.len(),
{
    assert forall|i: int| 0 <= i < list.len() implies terms_of(#[trigger] list[i]) is Some by {}
}

/// A setting that no entry has is not there.
pub proof fn a_missing_setting_is_missed(doc: Doc, entries: Seq<Doc>, name: Seq<char>)
    requires
        doc.at("settings"@).at("updated_entry"@) == Doc::List(entries),
        forall|j: int| 0 <= j < entries.len() ==> (#[trigger] entries[j]).field(name) is None,
    ensures
        setting_of(doc, name) is None,
        params_of(doc, name) is None,
{
    first_with_counts(entries, name, entries.len() as int);
}

/// A network whose every figure stands in the snapshot under its own key is described by it, and
/// the snapshot is complete.
pub proof fn what_is_readable_is_described(
    doc: Doc,
    n: Network,
    compute: Doc,
    cost: Doc,
    ext: Doc,
    events: Doc,
    bandwidth: Doc,
)
    requires
        doc.at("network"@) == Doc::Text(n.name@),
        number_of(doc.at("latest_ledger"@)) == Some(n.ledger),
        number_of(doc.at("protocol_version"@)) == Some(n.protocol),
        setting_of(doc, "contract_compute_v0"@) == Some(compute),
        setting_of(doc, "contract_ledger_cost_v0"@) == Some(cost),
        setting_of(doc, "contract_ledger_cost_ext_v0"@) == Some(ext),
        setting_of(doc, "contract_events_v0"@) == Some(events),
        setting_of(doc, "contract_bandwidth_v0"@) == Some(bandwidth),
        number_of(compute.at("tx_max_instructions"@)) == Some(n.tx_max_instructions),
        number_of(compute.at("tx_memory_limit"@)) == Some(n.tx_memory_limit),
        number_of(cost.at("tx_max_disk_read_entries"@)) == Some(n.tx_max_disk_read_entries),
        number_of(cost.at("tx_max_write_ledger_entries"@)) == Some(n.tx_max_write_entries),
        number_of(cost.at("tx_max_disk_read_bytes"@)) == Some(n.tx_max_disk_read_bytes),
        number_of(cost.at("tx_max_write_bytes"@)) == Some(n.tx_max_write_bytes),
        number_of(ext.at("tx_max_footprint_entries"@)) == Some(n.tx_max_footprint_entries),
        number_of(events.at("tx_max_contract_events_size_bytes"@)) == Some(
            n.tx_max_contract_events_size_bytes,
        ),
        number_of(bandwidth.at("tx_max_size_bytes"@)) == Some(n.tx_max_size_bytes),
        params_of(doc, "contract_cost_params_cpu_instructions"@) == Some(n.cpu_params@),
        params_of(doc, "contract_cost_params_memory_bytes"@) == Some(n.mem_params@),
    ensures
        describes(doc, n),
        is_complete(doc),
{
}

} // verus!
