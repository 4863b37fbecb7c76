//! Framing for the durable event logs: one record per line, newline
//! delimited, append only.
//!
//! A log file is the records of a canvas, each serialized on one line and
//! terminated by a newline.  This module frames and unframes the bytes and
//! proves the round trip; what a record's bytes mean is the business of
//! the serializer that produced them.

use vstd::prelude::*;

verus! {

/// The record delimiter.
pub const RECORD_DELIMITER: u8 = 10;

/// The first position of the delimiter, where there is one.
pub open spec fn find_delimiter(data: Seq<u8>) -> Option<int>
    decreases data.len(),
{
    if data.len() == 0 {
        None
    } else if data[0] == RECORD_DELIMITER {
        Some(0int)
    } else {
        match find_delimiter(data.skip(1)) {
            None => None,
            Some(i) => Some(i + 1),
        }
    }
}

/// `find_delimiter` finds the first delimiter, and none exactly when the
/// data holds none.
pub proof fn lemma_find_delimiter(data: Seq<u8>)
    ensures
        match find_delimiter(data) {
            None => forall|j: int| 0 <= j < data.len() ==> data[j] != RECORD_DELIMITER,
            Some(i) => 0 <= i < data.len() && data[i] == RECORD_DELIMITER && (forall|j: int|
                0 <= j < i ==> data[j] != RECORD_DELIMITER),
        },
    decreases data.len(),
{
    if data.len() > 0 && data[0] != RECORD_DELIMITER {
        lemma_find_delimiter(data.skip(1));
        assert(forall|j: int| 0 <= j < data.skip(1).len() ==> data.skip(1)[j] == data[j + 1]);
        match find_delimiter(data.skip(1)) {
            None => {
                assert forall|j: int|
                    0 <= j < data.len() implies data[j] != RECORD_DELIMITER by {
                    if j > 0 {
                        assert(data.skip(1)[j - 1] == data[j]);
                    }
                }
            },
            Some(i) => {
                assert(data.skip(1)[i] == data[i + 1]);
                assert forall|j: int| 0 <= j < i + 1 implies data[j] != RECORD_DELIMITER by {
                    if j > 0 {
                        assert(data.skip(1)[j - 1] == data[j]);
                    }
                }
            },
        }
    }
}

/// The records of a log's bytes: split at each delimiter; a final
/// unterminated stretch is a record of its own, the way a reader at true
/// end-of-file takes it.
pub open spec fn split_log(data: Seq<u8>) -> Seq<Seq<u8>>
    decreases data.len(),
    via split_log_decreases
{
    if data.len() == 0 {
        Seq::empty()
    } else {
        match find_delimiter(data) {
            None => seq![data],
            Some(i) => seq![data.take(i)] + split_log(data.skip(i + 1)),
        }
    }
}

#[via_fn]
proof fn split_log_decreases(data: Seq<u8>) {
    lemma_find_delimiter(data);
}

/// The bytes of a log holding `records` in order, each terminated by the
/// delimiter.
pub open spec fn join_log(records: Seq<Seq<u8>>) -> Seq<u8>
    decreases records.len(),
{
    if records.len() == 0 {
        Seq::empty()
    } else {
        records[0] + seq![RECORD_DELIMITER] + join_log(records.skip(1))
    }
}

/// In `record + delimiter + rest`, the first delimiter stands right after
/// the record, provided the record holds none itself.
proof fn lemma_find_delimiter_after(record: Seq<u8>, rest: Seq<u8>)
    requires
        forall|j: int| 0 <= j < record.len() ==> record[j] != RECORD_DELIMITER,
    ensures
        find_delimiter(record + seq![RECORD_DELIMITER] + rest) == Some(record.len() as int),
{
    let data = record + seq![RECORD_DELIMITER] + rest;
    lemma_find_delimiter(data);
    assert(data[record.len() as int] == RECORD_DELIMITER);
    match find_delimiter(data) {
        None => {
            assert(false);
        },
        Some(i) => {
            if i < record.len() {
                assert(data[i] == record[i]);
                assert(false);
            }
            if i > record.len() {
                assert(data[record.len() as int] != RECORD_DELIMITER);
                assert(false);
            }
        },
    }
}

/// The framing law: a log written as `join_log(records)` reads back as
/// exactly `records`, in order, provided no record holds the delimiter —
/// the round trip of the durable log across a restart.
pub proof fn lemma_split_of_join(records: Seq<Seq<u8>>)
    requires
        forall|k: int, j: int|
            0 <= k < records.len() && 0 <= j < records[k].len() ==> records[k][j]
                != RECORD_DELIMITER,
    ensures
        split_log(join_log(records)) == records,
    decreases records.len(),
{
    if records.len() == 0 {
        assert(split_log(join_log(records)) =~= records);
    } else {
        let head = records[0];
        let rest = join_log(records.skip(1));
        assert(forall|k: int, j: int|
            0 <= k < records.skip(1).len() && 0 <= j < records.skip(1)[k].len()
                ==> records.skip(1)[k][j] != RECORD_DELIMITER);
        lemma_split_of_join(records.skip(1));
        lemma_find_delimiter_after(head, rest);
        let data = head + seq![RECORD_DELIMITER] + rest;
        assert(data.len() > 0);
        assert(data.take(head.len() as int) =~= head);
        assert(data.skip(head.len() as int + 1) =~= rest);
        assert(split_log(data) == seq![head] + split_log(rest));
        assert(seq![head] + records.skip(1) =~= records);
    }
}

/// Copies `data[start..end]`.
#[verifier::loop_isolation(false)]
fn copy_range(data: &Vec<u8>, start: usize, end: usize) -> (r: Vec<u8>)
    requires
        start <= end <= data.len(),
    ensures
        r@ == data@.subrange(start as int, end as int),
{
    let mut r: Vec<u8> = Vec::new();
    let mut i: usize = start;
    while i < end
        invariant
            start <= i <= end,
            r@ == data@.subrange(start as int, i as int),
        decreases end - i,
    {
        r.push(data[i]);
        proof {
            assert(r@ =~= data@.subrange(start as int, i as int + 1));
        }
        i = i + 1;
    }
    r
}

/// Frames one record: the record's bytes with the delimiter appended, the
/// way `save_event` writes it.
pub fn frame_record(record: &Vec<u8>) -> (r: Vec<u8>)
    ensures
        r@ == record@ + seq![RECORD_DELIMITER],
{
    let mut r = copy_range(record, 0, record.len());
    proof {
        assert(record@.subrange(0, record@.len() as int) =~= record@);
    }
    r.push(RECORD_DELIMITER);
    r
}

/// Splits a log's bytes into its records, per [`split_log`]: one record
/// per delimiter-terminated line, plus a final unterminated stretch where
/// the file does not end on a delimiter.
#[verifier::loop_isolation(false)]
pub fn split_records(data: &Vec<u8>) -> (r: Vec<Vec<u8>>)
    ensures
        r@.map_values(|x: Vec<u8>| x@) == split_log(data@),
{
    let ghost whole = data@;
    let mut r: Vec<Vec<u8>> = Vec::new();
    let mut start: usize = 0;
    let mut i: usize = 0;
    proof {
        assert(whole.skip(0) =~= whole);
        assert(r@.map_values(|x: Vec<u8>| x@) + split_log(whole.skip(0)) =~= split_log(whole));
    }
    while i < data.len()
        invariant
            start <= i <= data.len(),
            r@.map_values(|x: Vec<u8>| x@) + split_log(whole.skip(start as int)) == split_log(
                whole,
            ),
            forall|j: int| start <= j < i ==> whole[j] != RECORD_DELIMITER,
        decreases data.len() - i,
    {
        if data[i] == RECORD_DELIMITER {
            let record = copy_range(data, start, i);
            let ghost before = r@.map_values(|x: Vec<u8>| x@);
            r.push(record);
            proof {
                let tail = whole.skip(start as int);
                lemma_find_delimiter(tail);
                assert(forall|j: int| 0 <= j < tail.len() ==> tail[j] == whole[start + j]);
                assert(tail[i - start as int] == RECORD_DELIMITER);
                assert(find_delimiter(tail) == Some(i - start as int)) by {
                    match find_delimiter(tail) {
                        None => {
                            assert(false);
                        },
                        Some(k) => {
                            if k < i - start as int {
                                assert(whole[start + k] != RECORD_DELIMITER);
                                assert(false);
                            }
                            if k > i - start as int {
                                assert(tail[i - start as int] != RECORD_DELIMITER);
                                assert(false);
                            }
                        },
                    }
                }
                assert(tail.take(i - start as int) =~= whole.subrange(start as int, i as int));
                assert(tail.skip(i - start as int + 1) =~= whole.skip(i as int + 1));
                assert(split_log(tail) == seq![whole.subrange(start as int, i as int)]
                    + split_log(whole.skip(i as int + 1)));
                assert(r@.map_values(|x: Vec<u8>| x@) =~= before.push(
                    whole.subrange(start as int, i as int),
                ));
                assert(r@.map_values(|x: Vec<u8>| x@) + split_log(whole.skip(i as int + 1))
                    =~= split_log(whole));
            }
            start = i + 1;
        }
        i = i + 1;
    }
    if start < data.len() {
        let record = copy_range(data, start, data.len());
        let ghost before = r@.map_values(|x: Vec<u8>| x@);
        r.push(record);
        proof {
            let tail = whole.skip(start as int);
            lemma_find_delimiter(tail);
            assert(forall|j: int| 0 <= j < tail.len() ==> tail[j] == whole[start + j]);
            assert(tail.len() > 0);
            match find_delimiter(tail) {
                Some(k) => {
                    assert(whole[start + k] != RECORD_DELIMITER);
                    assert(false);
                },
                None => {},
            }
            assert(split_log(tail) == seq![tail]);
            assert(tail =~= whole.subrange(start as int, whole.len() as int));
            assert(r@.map_values(|x: Vec<u8>| x@) =~= before.push(tail));
            assert(r@.map_values(|x: Vec<u8>| x@) =~= split_log(whole));
        }
    } else {
        proof {
            assert(whole.skip(start as int).len() == 0);
            assert(split_log(whole.skip(start as int)) =~= Seq::<Seq<u8>>::empty());
            assert(r@.map_values(|x: Vec<u8>| x@) =~= split_log(whole));
        }
    }
    r
}

} // verus!
