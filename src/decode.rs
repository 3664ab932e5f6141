use crate::entry::{texts, kept, reportable, retain_reported, views, DecodeError, EntryView, SlowlogEntry};
use crate::version::{schema_arity, Schema};
use redis::{FromRedisValue, RedisError, Value};
use vstd::prelude::*;
use vstd::utf8::{decode_utf8, valid_utf8};

verus! {

#[verifier::external_type_specification]
pub struct ExValue(Value);

#[verifier::external_type_specification]
#[verifier::external_body]
pub struct ExRedisError(RedisError);

/// The number of items of a bulk reply; `None` for any other reply.
pub open spec fn bulk_len(v: Value) -> Option<nat> {
    match v {
        Value::Bulk(items) => Some(items@.len()),
        _ => None,
    }
}

/// The items of a bulk reply; empty for any other reply.
pub open spec fn items_of(v: Value) -> Seq<Value> {
    match v {
        Value::Bulk(items) => items@,
        _ => Seq::empty(),
    }
}

/// An integer reply, read as `u64` the way a cast does.
pub open spec fn int_of(v: Value) -> Option<u64> {
    match v {
        Value::Int(n) => Some(n as u64),
        _ => None,
    }
}

/// A status reply, or binary data that is valid UTF-8, read as text.
pub open spec fn text_of(v: Value) -> Option<Seq<char>> {
    match v {
        Value::Status(st) => Some(st@),
        Value::Data(bytes) => if valid_utf8(bytes@) {
            Some(decode_utf8(bytes@))
        } else {
            None
        },
        _ => None,
    }
}

pub open spec fn all_text(items: Seq<Value>) -> bool {
    forall|k: int| 0 <= k < items.len() ==> (#[trigger] text_of(items[k])) is Some
}

/// A list of text replies read as tokens; a nil reply reads as no tokens.
pub open spec fn tokens_of(v: Value) -> Option<Seq<Seq<char>>> {
    match v {
        Value::Bulk(items) => if all_text(items@) {
            Some(items@.map_values(|i: Value| text_of(i)->0))
        } else {
            None
        },
        Value::Nil => Some(Seq::empty()),
        _ => None,
    }
}

/// A record with the schema's number of fields, each of a type that reads:
/// three integers, a list of text tokens, and under the extended schema two
/// texts.
pub open spec fn well_formed(v: Value, schema: Schema) -> bool {
    let it = items_of(v);
    &&& bulk_len(v) == Some(schema_arity(schema))
    &&& int_of(it[0]) is Some
    &&& int_of(it[1]) is Some
    &&& int_of(it[2]) is Some
    &&& tokens_of(it[3]) is Some
    &&& schema == Schema::Extended ==> text_of(it[4]) is Some && text_of(it[5]) is Some
}

/// A well-formed record whose command has at least one token.
pub open spec fn decodes(v: Value, schema: Schema) -> bool {
    well_formed(v, schema) && tokens_of(items_of(v)[3])->0.len() > 0
}

/// The entry that a well-formed record stands for.
pub open spec fn decoded_view(v: Value, schema: Schema) -> EntryView {
    let it = items_of(v);
    EntryView {
        id: int_of(it[0])->0,
        timestamp: int_of(it[1])->0,
        duration_micros: int_of(it[2])->0,
        command: tokens_of(it[3])->0,
        address: if schema == Schema::Extended {
            text_of(it[4])->0
        } else {
            Seq::empty()
        },
        client_name: if schema == Schema::Extended {
            text_of(it[5])->0
        } else {
            Seq::empty()
        },
    }
}

/// The entries that a reply of well-formed records stands for, in order.
pub open spec fn decoded_all(raws: Seq<Value>, schema: Schema) -> Seq<EntryView> {
    raws.map_values(|v: Value| decoded_view(v, schema))
}

/// Each field of `e` is what the record's item reads as, wherever that item
/// is of a type that reads; under the legacy schema the client fields are
/// empty.
pub open spec fn reads_entry(v: Value, schema: Schema, e: EntryView) -> bool {
    let it = items_of(v);
    &&& (int_of(it[0]) matches Some(x) ==> e.id == x)
    &&& (int_of(it[1]) matches Some(x) ==> e.timestamp == x)
    &&& (int_of(it[2]) matches Some(x) ==> e.duration_micros == x)
    &&& (tokens_of(it[3]) matches Some(c) ==> e.command == c)
    &&& (schema == Schema::Legacy ==> e.address.len() == 0 && e.client_name.len() == 0)
    &&& (schema == Schema::Extended ==> (text_of(it[4]) matches Some(x) ==> e.address == x))
    &&& (schema == Schema::Extended ==> (text_of(it[5]) matches Some(x) ==> e.client_name == x))
}

/// Relies on redis's FromRedisValue for a 6-tuple of `u64`, `u64`, `u64`,
/// `Vec<String>`, `String`, `String`: it accepts only a bulk reply of exactly
/// six items; an integer reads as `n as u64`; a status or UTF-8 data item
/// reads as its text; a bulk of such items, or nil, reads as a list.
#[verifier::external_body]
fn read_six(v: &Value) -> (r: Result<(u64, u64, u64, Vec<String>, String, String), RedisError>)
    ensures
        well_formed(*v, Schema::Extended) ==> r is Ok,
        r is Ok ==> bulk_len(*v) == Some(6nat),
        r matches Ok(t) ==> reads_entry(
            *v,
            Schema::Extended,
            EntryView {
                id: t.0,
                timestamp: t.1,
                duration_micros: t.2,
                command: texts(t.3),
                address: t.4@,
                client_name: t.5@,
            },
        ),
{
    FromRedisValue::from_redis_value(v)
}

/// Relies on redis's FromRedisValue for a 4-tuple of `u64`, `u64`, `u64`,
/// `Vec<String>`: it accepts only a bulk reply of exactly four items; an
/// integer reads as `n as u64`; a bulk of status or UTF-8 data items, or nil,
/// reads as a list of their texts.
#[verifier::external_body]
fn read_four(v: &Value) -> (r: Result<(u64, u64, u64, Vec<String>), RedisError>)
    ensures
        well_formed(*v, Schema::Legacy) ==> r is Ok,
        r is Ok ==> bulk_len(*v) == Some(4nat),
        r matches Ok(t) ==> reads_entry(
            *v,
            Schema::Legacy,
            EntryView {
                id: t.0,
                timestamp: t.1,
                duration_micros: t.2,
                command: texts(t.3),
                address: Seq::empty(),
                client_name: Seq::empty(),
            },
        ),
{
    FromRedisValue::from_redis_value(v)
}

/// What reading gives, on a well-formed record, is the entry it stands for.
proof fn lemma_reads_well_formed(v: Value, schema: Schema, e: EntryView)
    requires
        well_formed(v, schema),
        reads_entry(v, schema, e),
    ensures
        e == decoded_view(v, schema),
{
    let d = decoded_view(v, schema);
    if schema == Schema::Legacy {
        assert(e.address =~= d.address);
        assert(e.client_name =~= d.client_name);
    }
}

/// Decodes one slow-log record under the given schema.
///
/// The record must be a bulk reply with exactly the schema's number of
/// fields, else the result is `Malformed`. A well-formed record decodes to
/// the entry it stands for, unless its command is empty (`EmptyCommand`).
/// Under the legacy schema the address and client name are empty.
pub fn decode(raw: &Value, schema: Schema) -> (r: Result<SlowlogEntry, DecodeError>)
    ensures
        bulk_len(*raw) != Some(schema_arity(schema)) ==> r == Err::<SlowlogEntry, DecodeError>(
            DecodeError::Malformed,
        ),
        decodes(*raw, schema) ==> (r matches Ok(e) && e@ == decoded_view(*raw, schema)),
        well_formed(*raw, schema) && !decodes(*raw, schema) ==> r == Err::<
            SlowlogEntry,
            DecodeError,
        >(DecodeError::EmptyCommand),
        r matches Ok(e) ==> e@.wf() && reads_entry(*raw, schema, e@),
{
    let r = match schema {
        Schema::Extended => match read_six(raw) {
            Ok(t) => {
                proof {
                    assert(texts(t.3).len() == t.3@.len());
                }
                SlowlogEntry::new(t.0, t.1, t.2, t.3, t.4, t.5)
            },
            Err(_) => Err(DecodeError::Malformed),
        },
        Schema::Legacy => match read_four(raw) {
            Ok(t) => {
                proof {
                    assert(texts(t.3).len() == t.3@.len());
                }
                SlowlogEntry::new(t.0, t.1, t.2, t.3, String::new(), String::new())
            },
            Err(_) => Err(DecodeError::Malformed),
        },
    };
    proof {
        if r is Ok && well_formed(*raw, schema) {
            lemma_reads_well_formed(*raw, schema, r->Ok_0@);
        }
    }
    r
}

/// Decodes every record of a reply, in order; the first failure is returned.
pub fn decode_all(raws: &Vec<Value>, schema: Schema) -> (r: Result<Vec<SlowlogEntry>, DecodeError>)
    ensures
        (exists|k: int|
            0 <= k < raws@.len() && bulk_len(#[trigger] raws@[k]) != Some(schema_arity(schema)))
            ==> r is Err,
        (forall|k: int| 0 <= k < raws@.len() ==> decodes(#[trigger] raws@[k], schema)) ==> r is Ok,
        r matches Ok(es) ==> {
            &&& es@.len() == raws@.len()
            &&& forall|k: int|
                0 <= k < es@.len() ==> (#[trigger] es@[k])@.wf() && reads_entry(
                    raws@[k],
                    schema,
                    es@[k]@,
                )
        },
{
    let mut out: Vec<SlowlogEntry> = Vec::new();
    let mut i: usize = 0;
    while i < raws.len()
        invariant
            i <= raws@.len(),
            out@.len() == i,
            forall|k: int| 0 <= k < i ==> bulk_len(#[trigger] raws@[k]) == Some(schema_arity(schema)),
            forall|k: int|
                0 <= k < i ==> (#[trigger] out@[k])@.wf() && reads_entry(raws@[k], schema, out@[k]@),
        decreases raws@.len() - i,
    {
        match decode(&raws[i], schema) {
            Ok(e) => out.push(e),
            Err(err) => {
                return Err(err);
            },
        }
        i = i + 1;
    }
    Ok(out)
}

/// Turns one slow-log reply into the entries worth reporting: every record
/// is decoded under the schema, then the monitor's own commands are dropped.
///
/// When every record decodes, the result is exactly the entries the records
/// stand for, in order, without the ignored ones.
pub fn collect_slowlogs(raws: &Vec<Value>, schema: Schema) -> (r: Result<Vec<SlowlogEntry>, DecodeError>)
    ensures
        (exists|k: int|
            0 <= k < raws@.len() && bulk_len(#[trigger] raws@[k]) != Some(schema_arity(schema)))
            ==> r is Err,
        (forall|k: int| 0 <= k < raws@.len() ==> decodes(#[trigger] raws@[k], schema)) ==> (r matches Ok(
            es,
        ) && views(es@) == kept(decoded_all(raws@, schema))),
        r matches Ok(es) ==> exists|ds: Seq<EntryView>|
            #![trigger kept(ds)]
            {
                &&& ds.len() == raws@.len()
                &&& forall|k: int|
                    0 <= k < ds.len() ==> (#[trigger] ds[k]).wf() && reads_entry(raws@[k], schema, ds[k])
                &&& views(es@) == kept(ds)
            },
        r matches Ok(es) ==> forall|k: int|
            0 <= k < es@.len() ==> (#[trigger] es@[k])@.wf() && reportable(es@[k]@),
{
    let all = decode_all(raws, schema)?;
    let out = retain_reported(&all);
    proof {
        let ds = views(all@);
        let p = |e: EntryView| reportable(e);
        assert forall|k: int| 0 <= k < ds.len() implies (#[trigger] ds[k]).wf() && reads_entry(
            raws@[k],
            schema,
            ds[k],
        ) by {
            assert(ds[k] == all@[k]@);
        };
        assert(views(out@) == kept(ds));
        if forall|k: int| 0 <= k < raws@.len() ==> decodes(#[trigger] raws@[k], schema) {
            assert forall|k: int| 0 <= k < ds.len() implies #[trigger] ds[k] == decoded_all(
                raws@,
                schema,
            )[k] by {
                assert(ds[k] == all@[k]@);
                lemma_reads_well_formed(raws@[k], schema, ds[k]);
            };
            assert(ds =~= decoded_all(raws@, schema));
        }
        assert forall|k: int| 0 <= k < out@.len() implies (#[trigger] out@[k])@.wf() && reportable(
            out@[k]@,
        ) by {
            assert(views(out@)[k] == out@[k]@);
            ds.lemma_filter_pred(p, k);
            assert(ds.filter(p).contains(out@[k]@));
            ds.lemma_filter_contains_rev(p, out@[k]@);
        };
    }
    Ok(out)
}

} // verus!
