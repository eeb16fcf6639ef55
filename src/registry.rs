//! The registry's sparse index: where a package's record file lives, and how the
//! file reads as a list of published versions.
use vstd::prelude::*;
use vstd::string::*;

verus! {

/// One line of a package's index file: a published version and whether it was yanked.
#[derive(Clone, Debug)]
pub struct VersionRecord {
    pub version: String,
    pub yanked: bool,
}

/// Why an index file could not be read.
#[derive(Clone, Copy, Debug, PartialEq, Eq, Structural)]
pub enum IndexError {
    /// A record is not a JSON object with a string `vers` and a boolean `yanked`.
    MalformedRecord,
}

/// The directory of the index that holds the file of the package `name`.
pub open spec fn shard_prefix_of(name: Seq<char>) -> Seq<char> {
    if name.len() == 0 {
        seq!['0']
    } else if name.len() == 1 {
        seq!['1']
    } else if name.len() == 2 {
        seq!['2']
    } else if name.len() == 3 {
        seq!['3', '/'] + name.subrange(0, 1)
    } else {
        name.subrange(0, 2) + seq!['/'] + name.subrange(2, 4)
    }
}

/// The address of the index file of `name` under the registry root `endpoint`.
pub open spec fn index_url_of(endpoint: Seq<char>, name: Seq<char>) -> Seq<char> {
    endpoint + seq!['/'] + shard_prefix_of(name) + seq!['/'] + name
}

/// The strings viewed as character sequences.
pub open spec fn views(v: Seq<String>) -> Seq<Seq<char>> {
    v.map_values(|s: String| s@)
}

/// The records viewed as (version, yanked) pairs.
pub open spec fn record_views(v: Seq<VersionRecord>) -> Seq<(Seq<char>, bool)> {
    v.map_values(|r: VersionRecord| (r.version@, r.yanked))
}

/// The versions of the records that were not yanked, in their order.
pub open spec fn unyanked(rs: Seq<(Seq<char>, bool)>) -> Seq<Seq<char>>
    decreases rs.len(),
{
    if rs.len() == 0 {
        Seq::empty()
    } else {
        unyanked(rs.drop_last()) + if rs.last().1 {
            Seq::<Seq<char>>::empty()
        } else {
            seq![rs.last().0]
        }
    }
}

/// The line break byte.
pub const LINE_BREAK: u8 = 10;

/// The pieces of `b` between line breaks, in order; there is always at least one.
pub open spec fn pieces(b: Seq<u8>) -> Seq<Seq<u8>>
    decreases b.len(),
{
    if b.len() == 0 {
        seq![Seq::empty()]
    } else {
        let p = pieces(b.drop_last());
        if b.last() == LINE_BREAK {
            p.push(Seq::empty())
        } else {
            p.update(p.len() - 1, p.last().push(b.last()))
        }
    }
}

/// The lines of `b`: its pieces between line breaks, without the empty piece after
/// a final line break (or of an empty text). A carriage return before a line break
/// stays in its line, where JSON reads it as whitespace.
pub open spec fn lines_of(b: Seq<u8>) -> Seq<Seq<u8>> {
    let p = pieces(b);
    if p.last().len() == 0 {
        p.drop_last()
    } else {
        p
    }
}

/// The record that serde_json reads from one line of an index file, or `None` where
/// the line is not one JSON object with a string `vers` and a boolean `yanked`.
pub uninterp spec fn record_of(line: Seq<u8>) -> Option<(Seq<char>, bool)>;

/// The records of `lines`, or `None` where one of them does not read as a record.
pub open spec fn decoded(lines: Seq<Seq<u8>>) -> Option<Seq<(Seq<char>, bool)>>
    decreases lines.len(),
{
    if lines.len() == 0 {
        Some(Seq::empty())
    } else {
        match (decoded(lines.drop_last()), record_of(lines.last())) {
            (Some(rs), Some(r)) => Some(rs.push(r)),
            _ => None,
        }
    }
}

/// Decoding fails exactly where some line does not read as a record.
pub proof fn lemma_decoded_fails_on_a_bad_line(lines: Seq<Seq<u8>>)
    ensures
        decoded(lines) is None <==> exists|i: int| 0 <= i < lines.len() && (#[trigger] record_of(lines[i])) is None,
    decreases lines.len(),
{
    if lines.len() > 0 {
        let rest = lines.drop_last();
        lemma_decoded_fails_on_a_bad_line(rest);
        if decoded(rest) is None {
            let i = choose|i: int| 0 <= i < rest.len() && (#[trigger] record_of(rest[i])) is None;
            assert(lines[i] == rest[i]);
        }
        if exists|i: int| 0 <= i < lines.len() && (#[trigger] record_of(lines[i])) is None {
            let i = choose|i: int| 0 <= i < lines.len() && (#[trigger] record_of(lines[i])) is None;
            if i < rest.len() {
                assert(rest[i] == lines[i]);
            }
        }
    }
}

/// Relies on serde_json::from_slice, read into a `serde_json::Value`, and on
/// `Value::get`, `as_str` and `as_bool` for the fields `vers` and `yanked`.
#[verifier::external_body]
fn decode_record(line: &Vec<u8>) -> (r: Option<VersionRecord>)
    ensures
        match r {
            Some(v) => record_of(line@) == Some((v.version@, v.yanked)),
            None => record_of(line@) is None,
        },
{
    let value: serde_json::Value = serde_json::from_slice(line).ok()?;
    let version = value.get("vers")?.as_str()?.to_string();
    let yanked = value.get("yanked")?.as_bool()?;
    Some(VersionRecord { version, yanked })
}

/// The index directory of a package: the name's length where it is shorter than
/// three characters, `3/` and its first character where it has three, and else its
/// first two characters, a slash and the next two.
pub fn shard_prefix(name: &str) -> (r: String)
    ensures
        r@ == shard_prefix_of(name@),
{
    let n = name.unicode_len();
    if n == 0 {
        proof { reveal_strlit("0"); }
        "0".to_owned()
    } else if n == 1 {
        proof { reveal_strlit("1"); }
        "1".to_owned()
    } else if n == 2 {
        proof { reveal_strlit("2"); }
        "2".to_owned()
    } else if n == 3 {
        proof { reveal_strlit("3/"); }
        let mut r = "3/".to_owned();
        r.append(name.substring_char(0, 1));
        r
    } else {
        proof { reveal_strlit("/"); }
        let mut r = name.substring_char(0, 2).to_owned();
        r.append("/");
        r.append(name.substring_char(2, 4));
        r
    }
}

/// The address of the index file of package `name` under the registry root `endpoint`.
pub fn index_url(endpoint: &str, name: &str) -> (r: String)
    ensures
        r@ == index_url_of(endpoint@, name@),
{
    proof { reveal_strlit("/"); }
    let mut r = endpoint.to_owned();
    r.append("/");
    let prefix = shard_prefix(name);
    r.append(prefix.as_str());
    r.append("/");
    r.append(name);
    r
}

/// The versions of the records that were not yanked, in the records' order.
pub fn unyanked_versions(records: &Vec<VersionRecord>) -> (r: Vec<String>)
    ensures
        views(r@) == unyanked(record_views(records@)),
{
    let mut r: Vec<String> = Vec::new();
    let mut i: usize = 0;
    while i < records.len()
        invariant
            i <= records@.len(),
            views(r@) == unyanked(record_views(records@.subrange(0, i as int))),
        decreases records@.len() - i,
    {
        let ghost before = r@;
        assert(record_views(records@.subrange(0, i as int + 1)).drop_last()
            =~= record_views(records@.subrange(0, i as int)));
        if !records[i].yanked {
            r.push(records[i].version.clone());
            assert(views(r@) =~= views(before) + seq![records@[i as int].version@]);
        } else {
            assert(views(r@) =~= views(before) + Seq::<Seq<char>>::empty());
        }
        i = i + 1;
    }
    assert(records@.subrange(0, records@.len() as int) =~= records@);
    r
}

/// Reads `line` as a record into `records`, or marks the reading as failed.
fn take_line(line: &Vec<u8>, records: &mut Vec<VersionRecord>, failed: &mut bool, Ghost(done): Ghost<
    Seq<Seq<u8>>,
>)
    requires
        *old(failed) == (decoded(done) is None),
        !*old(failed) ==> decoded(done) == Some(record_views(old(records)@)),
    ensures
        *final(failed) == (decoded(done.push(line@)) is None),
        !*final(failed) ==> decoded(done.push(line@)) == Some(record_views(final(records)@)),
{
    assert(done.push(line@).drop_last() =~= done);
    match decode_record(line) {
        Some(record) => {
            if !*failed {
                let ghost before = records@;
                records.push(record);
                assert(record_views(records@) =~= record_views(before).push(
                    (records@.last().version@, records@.last().yanked),
                ));
            }
        },
        None => {
            *failed = true;
        },
    }
}

/// The published, not yanked versions that an index file lists, oldest first. The file
/// holds one JSON record per line; where a line does not read as a record, the whole
/// file is refused.
pub fn parse_index(body: &str) -> (r: Result<Vec<String>, IndexError>)
    ensures
        match decoded(lines_of(body.spec_bytes())) {
            Some(rs) => r matches Ok(v) && views(v@) == unyanked(rs),
            None => r == Err::<Vec<String>, IndexError>(IndexError::MalformedRecord),
        },
        r is Err <==> exists|i: int|
            0 <= i < lines_of(body.spec_bytes()).len() && (#[trigger] record_of(
                lines_of(body.spec_bytes())[i],
            )) is None,
{
    let b = body.as_bytes();
    let ghost bytes = b@;
    let mut records: Vec<VersionRecord> = Vec::new();
    let mut failed = false;
    let mut current: Vec<u8> = Vec::new();
    let mut i: usize = 0;
    assert(bytes.subrange(0, 0) =~= Seq::<u8>::empty());
    while i < b.len()
        invariant
            i <= bytes.len(),
            b@ == bytes,
            pieces(bytes.subrange(0, i as int)).len() >= 1,
            current@ == pieces(bytes.subrange(0, i as int)).last(),
            failed == (decoded(pieces(bytes.subrange(0, i as int)).drop_last()) is None),
            !failed ==> decoded(pieces(bytes.subrange(0, i as int)).drop_last()) == Some(
                record_views(records@),
            ),
        decreases bytes.len() - i,
    {
        let ghost p = pieces(bytes.subrange(0, i as int));
        assert(bytes.subrange(0, i as int + 1).drop_last() =~= bytes.subrange(0, i as int));
        assert(bytes.subrange(0, i as int + 1).last() == bytes[i as int]);
        if b[i] == LINE_BREAK {
            take_line(&current, &mut records, &mut failed, Ghost(p.drop_last()));
            assert(p.drop_last().push(current@) =~= p);
            assert(pieces(bytes.subrange(0, i as int + 1)).drop_last() =~= p);
            current = Vec::new();
        } else {
            current.push(b[i]);
            assert(pieces(bytes.subrange(0, i as int + 1)).drop_last() =~= p.drop_last());
        }
        i = i + 1;
    }
    assert(bytes.subrange(0, bytes.len() as int) =~= bytes);
    let ghost p = pieces(bytes);
    if current.len() > 0 {
        take_line(&current, &mut records, &mut failed, Ghost(p.drop_last()));
        assert(p.drop_last().push(current@) =~= p);
    }
    proof {
        lemma_decoded_fails_on_a_bad_line(lines_of(bytes));
    }
    if failed {
        Err(IndexError::MalformedRecord)
    } else {
        Ok(unyanked_versions(&records))
    }
}

} // verus!
