//! The `manifest.txt` of a game's data folder.

use vstd::prelude::*;

use crate::decimal::{nat_text, nat_to_text};
use crate::tw_db_pp::chars_of;
use crate::wh2_lua_error::{Wh2LuaError, Wh2LuaErrorV};

verus! {

/// The fields of each record of tab-separated text, as csv reads it.
pub uninterp spec fn tsv_records(bytes: Seq<u8>) -> Seq<Seq<Seq<char>>>;

#[verifier::external_type_specification]
#[verifier::external_body]
pub struct ExCsvError(csv::Error);

pub open spec fn records_view(rs: Seq<Vec<String>>) -> Seq<Seq<Seq<char>>> {
    rs.map_values(|r: Vec<String>| r@.map_values(|f: String| f@))
}

/// Relies on csv's `ReaderBuilder` (tab delimiter, no quoting, no header row, records of any
/// length) and `StringRecord::iter`: on success, the fields of every record, in order.
#[verifier::external_body]
fn read_tab_separated(bytes: &[u8]) -> (r: Result<Vec<Vec<String>>, csv::Error>)
    ensures
        r matches Ok(v) ==> records_view(v@) == tsv_records(bytes@),
{
    let mut reader = csv::ReaderBuilder::new().delimiter(b'\t').quoting(false).has_headers(
        false,
    ).flexible(true).from_reader(bytes);
    reader.records().map(|rec| rec.map(|r| r.iter().map(String::from).collect())).collect()
}

/// Relies on the `Display` of `csv::Error`: its message.
#[verifier::external_body]
fn csv_error_text(e: &csv::Error) -> String {
    e.to_string()
}

pub open spec fn is_digit(c: char) -> bool {
    '0' <= c && c <= '9'
}

/// The value of a string of decimal digits.
pub open spec fn dec_value(d: Seq<char>) -> nat
    decreases d.len(),
{
    if d.len() == 0 {
        0
    } else {
        dec_value(d.drop_last()) * 10 + ((d.last() as u32) - ('0' as u32)) as nat
    }
}

/// An unsigned decimal number below `bound`, as Rust's `str::parse` reads one: an optional
/// `+`, then one or more digits and nothing else.
pub open spec fn parse_unsigned(s: Seq<char>, bound: nat) -> Option<nat> {
    let d = unsigned_digits(s);
    if d.len() > 0 && all_digits(d) && dec_value(d) < bound {
        Some(dec_value(d))
    } else {
        None
    }
}

/// The text after an optional leading `+`.
pub open spec fn unsigned_digits(s: Seq<char>) -> Seq<char> {
    if s.len() > 0 && s[0] == '+' {
        s.drop_first()
    } else {
        s
    }
}

pub open spec fn all_digits(d: Seq<char>) -> bool {
    forall|i: int| 0 <= i < d.len() ==> is_digit(#[trigger] d[i])
}

proof fn lemma_dec_value_grows(d: Seq<char>, k: int)
    requires
        0 <= k <= d.len(),
        forall|i: int| 0 <= i < d.len() ==> is_digit(#[trigger] d[i]),
    ensures
        dec_value(d) >= dec_value(d.take(k)),
    decreases d.len() - k,
{
    if k < d.len() {
        lemma_dec_value_grows(d, k + 1);
        let t = d.take(k + 1);
        assert(t.drop_last() =~= d.take(k));
        assert(is_digit(t.last()));
        let a = dec_value(d.take(k));
        assert(dec_value(t) >= a) by (nonlinear_arith)
            requires
                dec_value(t) == a * 10 + ((t.last() as u32) - ('0' as u32)) as nat,
        ;
    } else {
        assert(d.take(k) =~= d);
    }
}

/// Reads an unsigned decimal number below 2^64.
pub fn parse_u64(s: &str) -> (r: Option<u64>)
    ensures
        r matches Some(v) ==> parse_unsigned(s@, 0x1_0000_0000_0000_0000) == Some(v as nat),
        r is None ==> parse_unsigned(s@, 0x1_0000_0000_0000_0000) is None,
{
    let cs = chars_of(s);
    let start: usize = if cs.len() > 0 && cs[0] == '+' {
        1
    } else {
        0
    };
    let ghost d = unsigned_digits(s@);
    assert(d =~= cs@.skip(start as int));
    if start == cs.len() {
        return None;
    }
    let mut v: u64 = 0;
    let mut i: usize = start;
    while i < cs.len()
        invariant
            cs@ == s@,
            d == cs@.skip(start as int),
            d == unsigned_digits(s@),
            start <= i <= cs.len(),
            forall|j: int| 0 <= j < i - start ==> is_digit(#[trigger] d[j]),
            v as nat == dec_value(d.take(i - start)),
        decreases cs.len() - i,
    {
        let c = cs[i];
        assert(c == d[i - start]);
        if !(c >= '0' && c <= '9') {
            assert(!is_digit(d[i - start]));
            assert(!all_digits(d));
            return None;
        }
        let digit = (c as u32 - '0' as u32) as u64;
        let ghost t = d.take(i - start + 1);
        assert(t.drop_last() =~= d.take(i - start));
        assert(t.last() == c);
        if v > (0xffff_ffff_ffff_ffffu64 - digit) / 10 {
            proof {
                assert(dec_value(t) == v * 10 + digit);
                assert(v * 10 + digit > 0xffff_ffff_ffff_ffffu64) by (nonlinear_arith)
                    requires
                        v > (0xffff_ffff_ffff_ffffu64 - digit) / 10,
                        digit <= 9,
                ;
                if all_digits(d) {
                    lemma_dec_value_grows(d, i - start + 1);
                    assert(dec_value(d) >= 0x1_0000_0000_0000_0000);
                }
                assert(parse_unsigned(s@, 0x1_0000_0000_0000_0000) is None);
            }
            return None;
        }
        proof {
            assert(v * 10 + digit <= 0xffff_ffff_ffff_ffffu64) by (nonlinear_arith)
                requires
                    v <= (0xffff_ffff_ffff_ffffu64 - digit) / 10,
                    digit <= 9,
            ;
        }
        v = v * 10 + digit;
        i = i + 1;
    }
    proof {
        assert(d.take(i - start) =~= d);
    }
    Some(v)
}

/// Reads an unsigned decimal number below 256.
pub fn parse_u8(s: &str) -> (r: Option<u8>)
    ensures
        r matches Some(v) ==> parse_unsigned(s@, 256) == Some(v as nat),
        r is None ==> parse_unsigned(s@, 256) is None,
{
    match parse_u64(s) {
        Some(v) => {
            if v < 256 {
                Some(v as u8)
            } else {
                None
            }
        },
        None => None,
    }
}

/// One line of a game's `manifest.txt`.
#[derive(Debug, Clone)]
pub struct ManifestEntry {
    /// The path of the file, relative to the data folder.
    pub relative_path: String,
    /// The size of the file in bytes.
    pub size: u64,
    /// 1 when the file comes with the base game, 0 when with a DLC; only newer games say.
    pub belongs_to_base_game: Option<u8>,
}

/// The whole `manifest.txt` of a data folder.
#[derive(Debug, Clone)]
pub struct Manifest(pub Vec<ManifestEntry>);

/// A record is a manifest line: a path and a size, and in newer games a base-game flag.
pub open spec fn record_ok(rec: Seq<Seq<char>>) -> bool {
    (rec.len() == 2 || rec.len() == 3) && parse_unsigned(rec[1], 0x1_0000_0000_0000_0000) is Some
}

/// The entry a well-formed record gives; a flag that does not read as a byte is none.
pub open spec fn entry_of(rec: Seq<Seq<char>>) -> (Seq<char>, nat, Option<nat>) {
    (
        rec[0],
        parse_unsigned(rec[1], 0x1_0000_0000_0000_0000)->Some_0,
        if rec.len() == 3 {
            parse_unsigned(rec[2], 256)
        } else {
            None
        },
    )
}

pub open spec fn entry_view(e: ManifestEntry) -> (Seq<char>, nat, Option<nat>) {
    (
        e.relative_path@,
        e.size as nat,
        match e.belongs_to_base_game {
            Some(b) => Some(b as nat),
            None => None,
        },
    )
}

impl Manifest {
    /// The entries of the records, in order; fails on the first record that is not a manifest
    /// line, naming its line number.
    pub fn from_records(records: &Vec<Vec<String>>) -> (r: Result<Manifest, Wh2LuaError>)
        ensures
            r is Ok <==> (forall|i: int|
                0 <= i < records@.len() ==> record_ok(#[trigger] records_view(records@)[i])),
            (forall|i: int| 0 <= i < records@.len() ==> record_ok(#[trigger] records_view(records@)[i]))
                ==> (r matches Ok(m) && m.0@.map_values(|e: ManifestEntry| entry_view(e))
                == records_view(records@).map_values(|rec: Seq<Seq<char>>| entry_of(rec))),
            r matches Err(e) ==> exists|i: int|
                0 <= i < records@.len() && !record_ok(#[trigger] records_view(records@)[i])
                    && (forall|j: int| 0 <= j < i ==> record_ok(records_view(records@)[j])) && e@
                    == Wh2LuaErrorV::ManifestError(nat_text((i + 1) as nat)),
    {
        let ghost rv = records_view(records@);
        let mut entries: Vec<ManifestEntry> = Vec::new();
        let mut i: usize = 0;
        while i < records.len()
            invariant
                rv == records_view(records@),
                i <= records.len(),
                forall|j: int| 0 <= j < i ==> record_ok(#[trigger] rv[j]),
                entries@.map_values(|e: ManifestEntry| entry_view(e)) == rv.take(i as int).map_values(
                    |rec: Seq<Seq<char>>| entry_of(rec),
                ),
            decreases records.len() - i,
        {
            let rec = &records[i];
            assert(rv[i as int] == rec@.map_values(|f: String| f@));
            let bad = Wh2LuaError::ManifestError(nat_to_text((i + 1) as u64));
            assert(rv[i as int].len() == rec@.len());
            if rec.len() != 2 && rec.len() != 3 {
                assert(!record_ok(rv[i as int]));
                return Err(bad);
            }
            assert(rv[i as int][1] == rec@[1]@);
            let size = match parse_u64(rec[1].as_str()) {
                Some(n) => n,
                None => {
                    assert(!record_ok(rv[i as int]));
                    return Err(bad);
                },
            };
            let belongs = if rec.len() == 3 {
                parse_u8(rec[2].as_str())
            } else {
                None
            };
            let e = ManifestEntry { relative_path: rec[0].clone(), size, belongs_to_base_game: belongs };
            let ghost old_entries = entries@;
            entries.push(e);
            proof {
                assert(entry_view(e) == entry_of(rv[i as int]));
                assert(rv.take(i + 1) =~= rv.take(i as int).push(rv[i as int]));
                assert(entries@.map_values(|e: ManifestEntry| entry_view(e)) =~= old_entries.map_values(
                    |e: ManifestEntry| entry_view(e),
                ).push(entry_view(e)));
                assert(entries@.map_values(|e: ManifestEntry| entry_view(e)) =~= rv.take(
                    i + 1,
                ).map_values(|rec: Seq<Seq<char>>| entry_of(rec)));
            }
            i = i + 1;
        }
        proof {
            assert(rv.take(i as int) =~= rv);
        }
        Ok(Manifest(entries))
    }

    /// Reads the text of a `manifest.txt`: tab-separated, unquoted lines of two or three
    /// fields.
    pub fn parse(bytes: &[u8]) -> (r: Result<Manifest, Wh2LuaError>)
        ensures
            r matches Ok(m) ==> (forall|i: int|
                0 <= i < tsv_records(bytes@).len() ==> record_ok(#[trigger] tsv_records(bytes@)[i]))
                && m.0@.map_values(|e: ManifestEntry| entry_view(e)) == tsv_records(
                bytes@,
            ).map_values(|rec: Seq<Seq<char>>| entry_of(rec)),
            r matches Err(e) ==> e is RpfmError || e is ManifestError,
            r matches Err(Wh2LuaError::ManifestError(l)) ==> exists|i: int|
                0 <= i < tsv_records(bytes@).len() && !record_ok(#[trigger] tsv_records(bytes@)[i])
                    && (forall|j: int| 0 <= j < i ==> record_ok(tsv_records(bytes@)[j])) && l@
                    == nat_text((i + 1) as nat),
    {
        match read_tab_separated(bytes) {
            Ok(records) => {
                let r = Self::from_records(&records);
                r
            },
            Err(e) => Err(Wh2LuaError::RpfmError(csv_error_text(&e))),
        }
    }
}

} // verus!
