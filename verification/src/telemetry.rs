//! Parsing of the kernel's memory reports: `/proc/meminfo` and the memory
//! pressure-stall file `/proc/pressure/memory`.
use vstd::prelude::*;

use crate::model::MemorySnapshot;
use crate::text::{
    lemma_split_once_parts, lines, lines_spec, parse_u64, parse_u64_spec, single, split_once, split_once_char, split_words, views,
    words,
};

verus! {

/// One `/proc/meminfo` line as key and first number after the colon, if it has that shape:
/// a colon, then at least one word, the first of which is an unsigned decimal number.
pub open spec fn meminfo_entry(line: Seq<char>) -> Option<(Seq<char>, u64)> {
    match split_once(line, single(':')) {
        None => None,
        Some((key, value)) => {
            let ws = words(value);
            if ws.len() == 0 {
                None
            } else {
                match parse_u64_spec(ws[0]) {
                    Some(kib) => Some((key, kib)),
                    None => None,
                }
            }
        },
    }
}

/// Every line has the shape of a `/proc/meminfo` entry.
pub open spec fn all_meminfo_lines(ls: Seq<Seq<char>>) -> bool {
    forall|i: int| 0 <= i < ls.len() ==> (#[trigger] meminfo_entry(ls[i])) is Some
}

/// The number of the last line with key `key`, if some line has it.
pub open spec fn last_meminfo_value(ls: Seq<Seq<char>>, key: Seq<char>) -> Option<u64>
    decreases ls.len(),
{
    if ls.len() == 0 {
        None
    } else {
        match meminfo_entry(ls.last()) {
            Some((k, v)) => if k == key {
                Some(v)
            } else {
                last_meminfo_value(ls.drop_last(), key)
            },
            None => last_meminfo_value(ls.drop_last(), key),
        }
    }
}

/// `/proc/meminfo` text read as a snapshot: every line must be an entry, and the totals
/// come from the last `MemTotal`, `MemAvailable`, `SwapTotal` and `SwapFree` lines.
pub open spec fn parse_meminfo_spec(raw: Seq<char>) -> Option<MemorySnapshot> {
    let ls = lines_spec(raw);
    if !all_meminfo_lines(ls) {
        None
    } else {
        match (
            last_meminfo_value(ls, "MemTotal"@),
            last_meminfo_value(ls, "MemAvailable"@),
            last_meminfo_value(ls, "SwapTotal"@),
            last_meminfo_value(ls, "SwapFree"@),
        ) {
            (Some(total), Some(available), Some(swap_total), Some(swap_free)) => Some(
                MemorySnapshot {
                    total_kib: total,
                    available_kib: available,
                    swap_total_kib: swap_total,
                    swap_free_kib: swap_free,
                },
            ),
            _ => None,
        }
    }
}

/// A parsed `/proc/meminfo` line.
struct MeminfoField {
    key: String,
    kib: u64,
}

/// Parses one `/proc/meminfo` line.
fn parse_meminfo_line(line: &str) -> (r: Option<MeminfoField>)
    ensures
        match r {
            Some(f) => meminfo_entry(line@) == Some((f.key@, f.kib)),
            None => meminfo_entry(line@) is None,
        },
{
    let (key, value) = match split_once_char(line, ':') {
        Some(parts) => parts,
        None => return None,
    };
    let ws = split_words(value.as_str());
    if ws.len() == 0 {
        proof {
            assert(views(ws@).len() == 0);
        }
        return None;
    }
    proof {
        assert(views(ws@)[0] == ws@[0]@);
    }
    match parse_u64(ws[0].as_str()) {
        Some(kib) => Some(MeminfoField { key, kib }),
        None => None,
    }
}

/// The number of the last field with key `key`.
fn last_field(fields: &Vec<MeminfoField>, key: &String, ls: Ghost<Seq<Seq<char>>>) -> (r: Option<u64>)
    requires
        fields@.len() == ls@.len(),
        forall|i: int| 0 <= i < ls@.len() ==> #[trigger] meminfo_entry(ls@[i]) == Some((fields@[i].key@, fields@[i].kib)),
    ensures
        r == last_meminfo_value(ls@, key@),
{
    let mut i = fields.len();
    proof {
        assert(ls@.take(i as int) =~= ls@);
    }
    while i > 0
        invariant
            i <= fields@.len(),
            fields@.len() == ls@.len(),
            forall|j: int| 0 <= j < ls@.len() ==> #[trigger] meminfo_entry(ls@[j]) == Some((fields@[j].key@, fields@[j].kib)),
            last_meminfo_value(ls@.take(i as int), key@) == last_meminfo_value(ls@, key@),
        decreases i,
    {
        let ghost t = ls@.take(i as int);
        proof {
            assert(t.last() == ls@[i - 1]);
            assert(t.drop_last() =~= ls@.take(i - 1));
            assert(meminfo_entry(ls@[i - 1]) == Some((fields@[i - 1].key@, fields@[i - 1].kib)));
        }
        if fields[i - 1].key == *key {
            return Some(fields[i - 1].kib);
        }
        i -= 1;
    }
    None
}

/// Reads `/proc/meminfo` text; `None` when a line is not an entry or a total is missing.
pub fn parse_meminfo(raw: &str) -> (r: Option<MemorySnapshot>)
    ensures
        r == parse_meminfo_spec(raw@),
{
    let ls = lines(raw);
    let ghost lv = views(ls@);
    let mut fields: Vec<MeminfoField> = Vec::new();
    let mut i: usize = 0;
    while i < ls.len()
        invariant
            i <= ls@.len(),
            lv == views(ls@),
            lv == lines_spec(raw@),
            fields@.len() == i,
            forall|j: int| 0 <= j < i ==> #[trigger] meminfo_entry(lv[j]) == Some((fields@[j].key@, fields@[j].kib)),
        decreases ls@.len() - i,
    {
        match parse_meminfo_line(ls[i].as_str()) {
            Some(f) => {
                fields.push(f);
            },
            None => {
                proof {
                    assert(lv[i as int] == ls@[i as int]@);
                    assert(!all_meminfo_lines(lv));
                }
                return None;
            },
        }
        i += 1;
    }
    proof {
        assert(all_meminfo_lines(lv));
    }
    let total = last_field(&fields, &String::from_str("MemTotal"), Ghost(lv));
    let available = last_field(&fields, &String::from_str("MemAvailable"), Ghost(lv));
    let swap_total = last_field(&fields, &String::from_str("SwapTotal"), Ghost(lv));
    let swap_free = last_field(&fields, &String::from_str("SwapFree"), Ghost(lv));
    match (total, available, swap_total, swap_free) {
        (Some(total_kib), Some(available_kib), Some(swap_total_kib), Some(swap_free_kib)) => Some(
            MemorySnapshot { total_kib, available_kib, swap_total_kib, swap_free_kib },
        ),
        _ => None,
    }
}

/// A meminfo entry is its key, a colon, and text whose first word is the number.
pub proof fn lemma_meminfo_entry_shape(line: Seq<char>, key: Seq<char>, kib: u64)
    requires
        meminfo_entry(line) == Some((key, kib)),
    ensures
        exists|rest: Seq<char>|
            line == key + seq![':'] + rest && words(rest).len() > 0 && parse_u64_spec(#[trigger] words(rest)[0]) == Some(kib),
{
    lemma_split_once_parts(line, single(':'));
    let (k, rest) = split_once(line, single(':'))->0;
    assert(line == k + seq![':'] + rest);
    assert(parse_u64_spec(words(rest)[0]) == Some(kib));
}

/// The value found for `key` is the number of some entry line with that key.
pub proof fn lemma_meminfo_value_from_line(ls: Seq<Seq<char>>, key: Seq<char>)
    requires
        last_meminfo_value(ls, key) is Some,
    ensures
        exists|i: int| 0 <= i < ls.len() && #[trigger] meminfo_entry(ls[i]) == Some((key, last_meminfo_value(ls, key)->0)),
    decreases ls.len(),
{
    match meminfo_entry(ls.last()) {
        Some((k, v)) => {
            if k == key {
                assert(meminfo_entry(ls[ls.len() - 1]) == Some((key, v)));
            } else {
                lemma_meminfo_value_from_line(ls.drop_last(), key);
                let i = choose|i: int| 0 <= i < ls.drop_last().len() && #[trigger] meminfo_entry(ls.drop_last()[i]) == Some(
                    (key, last_meminfo_value(ls.drop_last(), key)->0),
                );
                assert(ls[i] == ls.drop_last()[i]);
            }
        },
        None => {
            lemma_meminfo_value_from_line(ls.drop_last(), key);
            let i = choose|i: int| 0 <= i < ls.drop_last().len() && #[trigger] meminfo_entry(ls.drop_last()[i]) == Some(
                (key, last_meminfo_value(ls.drop_last(), key)->0),
            );
            assert(ls[i] == ls.drop_last()[i]);
        },
    }
}

/// Each total of a parsed snapshot is the number on a line of its own key: `MemTotal`,
/// `MemAvailable`, `SwapTotal` and `SwapFree`.
pub proof fn lemma_meminfo_fields_from_their_lines(raw: Seq<char>)
    requires
        parse_meminfo_spec(raw) is Some,
    ensures
        exists|i: int|
            0 <= i < lines_spec(raw).len() && #[trigger] meminfo_entry(lines_spec(raw)[i]) == Some(
                ("MemTotal"@, parse_meminfo_spec(raw)->0.total_kib),
            ),
        exists|i: int|
            0 <= i < lines_spec(raw).len() && #[trigger] meminfo_entry(lines_spec(raw)[i]) == Some(
                ("MemAvailable"@, parse_meminfo_spec(raw)->0.available_kib),
            ),
        exists|i: int|
            0 <= i < lines_spec(raw).len() && #[trigger] meminfo_entry(lines_spec(raw)[i]) == Some(
                ("SwapTotal"@, parse_meminfo_spec(raw)->0.swap_total_kib),
            ),
        exists|i: int|
            0 <= i < lines_spec(raw).len() && #[trigger] meminfo_entry(lines_spec(raw)[i]) == Some(
                ("SwapFree"@, parse_meminfo_spec(raw)->0.swap_free_kib),
            ),
{
    let ls = lines_spec(raw);
    lemma_meminfo_value_from_line(ls, "MemTotal"@);
    lemma_meminfo_value_from_line(ls, "MemAvailable"@);
    lemma_meminfo_value_from_line(ls, "SwapTotal"@);
    lemma_meminfo_value_from_line(ls, "SwapFree"@);
}

/// One line of the pressure-stall file, before its averages are read as numbers: the
/// line's kind (`some` or `full`), the text of its three averages, and its total stall time.
pub struct PsiRecord {
    pub kind: String,
    pub avg10: String,
    pub avg60: String,
    pub avg300: String,
    pub total_us: u64,
}

/// Abstract pressure-stall line.
pub struct PsiRecordView {
    pub kind: Seq<char>,
    pub avg10: Seq<char>,
    pub avg60: Seq<char>,
    pub avg300: Seq<char>,
    pub total_us: u64,
}

impl View for PsiRecord {
    type V = PsiRecordView;

    open spec fn view(&self) -> PsiRecordView {
        PsiRecordView {
            kind: self.kind@,
            avg10: self.avg10@,
            avg60: self.avg60@,
            avg300: self.avg300@,
            total_us: self.total_us,
        }
    }
}

/// The value of the last `key=value` word for `key` among `ws`.
pub open spec fn psi_field(ws: Seq<Seq<char>>, key: Seq<char>) -> Option<Seq<char>>
    decreases ws.len(),
{
    if ws.len() == 0 {
        None
    } else {
        match split_once(ws.last(), single('=')) {
            Some((k, v)) => if k == key {
                Some(v)
            } else {
                psi_field(ws.drop_last(), key)
            },
            None => psi_field(ws.drop_last(), key),
        }
    }
}

/// A pressure-stall line: its first word is the kind; the later words must include
/// `avg10=`, `avg60=`, `avg300=` and `total=` fields, the total an unsigned number.
pub open spec fn psi_record(line: Seq<char>) -> Option<PsiRecordView> {
    let ws = words(line);
    if ws.len() == 0 {
        None
    } else {
        let fs = ws.drop_first();
        match (psi_field(fs, "avg10"@), psi_field(fs, "avg60"@), psi_field(fs, "avg300"@), psi_field(fs, "total"@)) {
            (Some(a10), Some(a60), Some(a300), Some(t)) => match parse_u64_spec(t) {
                Some(total) => Some(PsiRecordView { kind: ws[0], avg10: a10, avg60: a60, avg300: a300, total_us: total }),
                None => None,
            },
            _ => None,
        }
    }
}

/// The value `psi_field` finds for `key` comes from a word `key=value` among the words.
pub proof fn lemma_psi_field_from_word(ws: Seq<Seq<char>>, key: Seq<char>)
    requires
        psi_field(ws, key) is Some,
    ensures
        exists|i: int| 0 <= i < ws.len() && #[trigger] ws[i] == key + seq!['='] + psi_field(ws, key)->0,
    decreases ws.len(),
{
    let w = ws.last();
    match split_once(w, single('=')) {
        Some((k, v)) => {
            if k == key {
                lemma_split_once_parts(w, single('='));
                assert(ws[ws.len() - 1] == key + seq!['='] + v);
            } else {
                lemma_psi_field_from_word(ws.drop_last(), key);
                let i = choose|i: int| 0 <= i < ws.drop_last().len() && #[trigger] ws.drop_last()[i] == key + seq!['=']
                    + psi_field(ws.drop_last(), key)->0;
                assert(ws[i] == ws.drop_last()[i]);
            }
        },
        None => {
            lemma_psi_field_from_word(ws.drop_last(), key);
            let i = choose|i: int| 0 <= i < ws.drop_last().len() && #[trigger] ws.drop_last()[i] == key + seq!['=']
                + psi_field(ws.drop_last(), key)->0;
            assert(ws[i] == ws.drop_last()[i]);
        },
    }
}

/// Each field of a pressure-stall record is read under its own key: the kind is the first
/// word, and `avg10`, `avg60`, `avg300` and the total are the values of the last
/// `avg10=`, `avg60=`, `avg300=` and `total=` words after it, each coming from such a word.
pub proof fn lemma_psi_record_fields(line: Seq<char>)
    requires
        psi_record(line) is Some,
    ensures
        words(line).len() >= 1,
        psi_record(line)->0.kind == words(line)[0],
        Some(psi_record(line)->0.avg10) == psi_field(words(line).drop_first(), "avg10"@),
        Some(psi_record(line)->0.avg60) == psi_field(words(line).drop_first(), "avg60"@),
        Some(psi_record(line)->0.avg300) == psi_field(words(line).drop_first(), "avg300"@),
        psi_field(words(line).drop_first(), "total"@) matches Some(t) && parse_u64_spec(t) == Some(
            psi_record(line)->0.total_us,
        ),
        exists|i: int|
            0 <= i < words(line).len() && #[trigger] words(line)[i] == "avg10"@ + seq!['='] + psi_record(line)->0.avg10,
        exists|i: int|
            0 <= i < words(line).len() && #[trigger] words(line)[i] == "avg60"@ + seq!['='] + psi_record(line)->0.avg60,
        exists|i: int|
            0 <= i < words(line).len() && #[trigger] words(line)[i] == "avg300"@ + seq!['='] + psi_record(line)->0.avg300,
{
    let fs = words(line).drop_first();
    lemma_psi_field_from_word(fs, "avg10"@);
    lemma_psi_field_from_word(fs, "avg60"@);
    lemma_psi_field_from_word(fs, "avg300"@);
    let i10 = choose|i: int| 0 <= i < fs.len() && #[trigger] fs[i] == "avg10"@ + seq!['='] + psi_field(fs, "avg10"@)->0;
    let i60 = choose|i: int| 0 <= i < fs.len() && #[trigger] fs[i] == "avg60"@ + seq!['='] + psi_field(fs, "avg60"@)->0;
    let i300 = choose|i: int| 0 <= i < fs.len() && #[trigger] fs[i] == "avg300"@ + seq!['='] + psi_field(fs, "avg300"@)->0;
    assert(words(line)[i10 + 1] == fs[i10]);
    assert(words(line)[i60 + 1] == fs[i60]);
    assert(words(line)[i300 + 1] == fs[i300]);
}

/// Every record of pressure-stall text reads its fields under their own keys from the
/// words of its own line.
pub proof fn lemma_psi_records_fields(raw: Seq<char>, i: int)
    requires
        psi_records_spec(raw) is Some,
        0 <= i < psi_records_spec(raw)->0.len(),
    ensures
        psi_records_spec(raw)->0.len() == lines_spec(raw).len(),
        psi_record(lines_spec(raw)[i]) == Some(psi_records_spec(raw)->0[i]),
{
    let ls = lines_spec(raw);
    assert(psi_record(ls[i]) is Some);
}

/// Every line of pressure-stall text as a record, or `None` when some line is not one.
pub open spec fn psi_records_spec(raw: Seq<char>) -> Option<Seq<PsiRecordView>> {
    let ls = lines_spec(raw);
    if forall|i: int| 0 <= i < ls.len() ==> (#[trigger] psi_record(ls[i])) is Some {
        Some(ls.map_values(|l: Seq<char>| psi_record(l)->0))
    } else {
        None
    }
}

/// The value of the last `key=value` word for `key` among `ws`.
fn find_psi_field(ws: &Vec<String>, key: &String) -> (r: Option<String>)
    requires
        ws@.len() >= 1,
    ensures
        match r {
            Some(v) => psi_field(views(ws@).drop_first(), key@) == Some(v@),
            None => psi_field(views(ws@).drop_first(), key@) is None,
        },
{
    let ghost fs = views(ws@).drop_first();
    let mut i = ws.len();
    proof {
        assert(fs.take(i - 1) =~= fs);
    }
    while i > 1
        invariant
            1 <= i <= ws@.len(),
            fs == views(ws@).drop_first(),
            psi_field(fs.take(i - 1), key@) == psi_field(fs, key@),
        decreases i,
    {
        let ghost t = fs.take(i - 1);
        proof {
            assert(t.last() == ws@[i - 1]@);
            assert(t.drop_last() =~= fs.take(i - 2));
        }
        match split_once_char(ws[i - 1].as_str(), '=') {
            Some((k, v)) => {
                if k == *key {
                    return Some(v);
                }
            },
            None => {},
        }
        i -= 1;
    }
    proof {
        assert(fs.take(0) =~= Seq::<Seq<char>>::empty());
    }
    None
}

/// Reads one pressure-stall line.
fn parse_psi_line(line: &str) -> (r: Option<PsiRecord>)
    ensures
        match r {
            Some(rec) => psi_record(line@) == Some(rec@),
            None => psi_record(line@) is None,
        },
{
    let ws = split_words(line);
    if ws.len() == 0 {
        proof {
            assert(views(ws@).len() == 0);
        }
        return None;
    }
    let a10 = find_psi_field(&ws, &String::from_str("avg10"));
    let a60 = find_psi_field(&ws, &String::from_str("avg60"));
    let a300 = find_psi_field(&ws, &String::from_str("avg300"));
    let t = find_psi_field(&ws, &String::from_str("total"));
    match (a10, a60, a300, t) {
        (Some(avg10), Some(avg60), Some(avg300), Some(t)) => match parse_u64(t.as_str()) {
            Some(total_us) => {
                let kind = ws[0].clone();
                proof {
                    assert(views(ws@)[0] == ws@[0]@);
                }
                Some(PsiRecord { kind, avg10, avg60, avg300, total_us })
            },
            None => None,
        },
        _ => None,
    }
}

/// Reads pressure-stall text line by line; `None` when some line is not a record.
pub fn parse_psi_records(raw: &str) -> (r: Option<Vec<PsiRecord>>)
    ensures
        match r {
            Some(rs) => psi_records_spec(raw@) == Some(rs@.map_values(|x: PsiRecord| x@)),
            None => psi_records_spec(raw@) is None,
        },
{
    let ls = lines(raw);
    let ghost lv = views(ls@);
    let mut out: Vec<PsiRecord> = Vec::new();
    let mut i: usize = 0;
    while i < ls.len()
        invariant
            i <= ls@.len(),
            lv == views(ls@),
            lv == lines_spec(raw@),
            out@.len() == i,
            forall|j: int| 0 <= j < i ==> #[trigger] psi_record(lv[j]) == Some(out@[j]@),
        decreases ls@.len() - i,
    {
        match parse_psi_line(ls[i].as_str()) {
            Some(rec) => {
                out.push(rec);
            },
            None => {
                proof {
                    assert(lv[i as int] == ls@[i as int]@);
                    assert(psi_record(lv[i as int]) is None);
                }
                return None;
            },
        }
        i += 1;
    }
    proof {
        assert(forall|j: int| 0 <= j < lv.len() ==> (#[trigger] psi_record(lv[j])) is Some);
        assert(lv.map_values(|l: Seq<char>| psi_record(l)->0) =~= out@.map_values(|x: PsiRecord| x@));
    }
    Some(out)
}

/// The position of the last record of kind `kind`.
pub open spec fn last_of_kind(rs: Seq<PsiRecordView>, kind: Seq<char>) -> Option<int>
    decreases rs.len(),
{
    if rs.len() == 0 {
        None
    } else if rs.last().kind == kind {
        Some(rs.len() - 1)
    } else {
        last_of_kind(rs.drop_last(), kind)
    }
}

/// The position found for `kind` holds a record of that kind, and no later record has it;
/// when none is found, no record has it.
pub proof fn lemma_last_of_kind_is_last(rs: Seq<PsiRecordView>, kind: Seq<char>)
    ensures
        last_of_kind(rs, kind) matches Some(i) ==> 0 <= i < rs.len() && rs[i].kind == kind && forall|j: int|
            i < j < rs.len() ==> #[trigger] rs[j].kind != kind,
        last_of_kind(rs, kind) is None ==> forall|j: int| 0 <= j < rs.len() ==> #[trigger] rs[j].kind != kind,
    decreases rs.len(),
{
    if rs.len() > 0 {
        lemma_last_of_kind_is_last(rs.drop_last(), kind);
        assert forall|j: int| 0 <= j < rs.len() - 1 implies #[trigger] rs[j] == rs.drop_last()[j] by {}
    }
}

/// The position of the last record of kind `kind`.
fn find_last_kind(rs: &Vec<PsiRecord>, kind: &String) -> (r: Option<usize>)
    ensures
        match r {
            Some(i) => last_of_kind(rs@.map_values(|x: PsiRecord| x@), kind@) == Some(i as int),
            None => last_of_kind(rs@.map_values(|x: PsiRecord| x@), kind@) is None,
        },
{
    let ghost vs = rs@.map_values(|x: PsiRecord| x@);
    let mut i = rs.len();
    proof {
        assert(vs.take(i as int) =~= vs);
    }
    while i > 0
        invariant
            i <= rs@.len(),
            vs == rs@.map_values(|x: PsiRecord| x@),
            last_of_kind(vs.take(i as int), kind@) == last_of_kind(vs, kind@),
        decreases i,
    {
        proof {
            assert(vs.take(i as int).drop_last() =~= vs.take(i - 1));
        }
        if rs[i - 1].kind == *kind {
            return Some(i - 1);
        }
        i -= 1;
    }
    None
}

/// The positions of the last `some` record and the last `full` record, when both exist.
pub fn psi_line_indices(rs: &Vec<PsiRecord>) -> (r: Option<(usize, usize)>)
    ensures
        match r {
            Some((s, f)) => last_of_kind(rs@.map_values(|x: PsiRecord| x@), "some"@) == Some(s as int)
                && last_of_kind(rs@.map_values(|x: PsiRecord| x@), "full"@) == Some(f as int),
            None => last_of_kind(rs@.map_values(|x: PsiRecord| x@), "some"@) is None || last_of_kind(
                rs@.map_values(|x: PsiRecord| x@),
                "full"@,
            ) is None,
        },
{
    let some = find_last_kind(rs, &String::from_str("some"));
    let full = find_last_kind(rs, &String::from_str("full"));
    match (some, full) {
        (Some(s), Some(f)) => Some((s, f)),
        _ => None,
    }
}

} // verus!
