//! Dataset values: the typed entries a dataset holds, nested property
//! lookup, and text rendering.

use vstd::prelude::*;
use vstd::string::{StrSliceExecFns, StringExecFns};

use crate::text::{dec_str, dec_str_i32, i32_to_string, string_eq, u64_to_string};

verus! {

broadcast use vstd::std_specs::vec::group_vec_axioms;

/// One entry of a dataset.
///
/// A 32-bit float is carried as its raw bit pattern: the library states and
/// proves nothing about floating-point arithmetic, so the bits travel through
/// it unchanged and the host layer converts at the edges.
pub enum DatasetData {
    /// A null value.
    Null,
    /// An unsigned byte.
    Byte(u8),
    /// A 32-bit signed integer.
    Int(i32),
    /// The raw bits of a 32-bit float.
    Float(u32),
    /// A string.
    String(String),
    /// An ordered list of entries.
    Array(Vec<DatasetData>),
    /// Keyed entries; keys are unique in a well-formed value.
    Table(Vec<(String, DatasetData)>),
}

/// The mathematical value of a [`DatasetData`].
pub enum DataV {
    Null,
    Byte(u8),
    Int(i32),
    Float(u32),
    Str(Seq<char>),
    Array(Seq<DataV>),
    Table(Seq<(Seq<char>, DataV)>),
}

/// The mathematical value of a dataset entry.
pub open spec fn data_view(d: DatasetData) -> DataV
    decreases d, 2int,
{
    match d {
        DatasetData::Null => DataV::Null,
        DatasetData::Byte(b) => DataV::Byte(b),
        DatasetData::Int(i) => DataV::Int(i),
        DatasetData::Float(bits) => DataV::Float(bits),
        DatasetData::String(s) => DataV::Str(s@),
        DatasetData::Array(items) => DataV::Array(data_vec_view(items)),
        DatasetData::Table(entries) => DataV::Table(table_vec_view(entries)),
    }
}

/// The mathematical values of a vector of dataset entries.
pub open spec fn data_vec_view(v: Vec<DatasetData>) -> Seq<DataV>
    decreases v, 1int,
{
    data_seq_view(v@)
}

/// The mathematical values of a sequence of dataset entries.
pub open spec fn data_seq_view(s: Seq<DatasetData>) -> Seq<DataV>
    decreases s, 0int,
{
    if s.len() == 0 {
        Seq::empty()
    } else {
        data_seq_view(s.subrange(0, s.len() - 1)).push(data_view(s.last()))
    }
}

/// The mathematical values of a vector of keyed dataset entries.
pub open spec fn table_vec_view(v: Vec<(String, DatasetData)>) -> Seq<(Seq<char>, DataV)>
    decreases v, 1int,
{
    table_seq_view(v@)
}

/// The mathematical value of one keyed dataset entry.
pub open spec fn table_entry_view(e: (String, DatasetData)) -> (Seq<char>, DataV)
    decreases e, 1int,
{
    (e.0@, data_view(e.1))
}

/// The mathematical values of a sequence of keyed dataset entries.
pub open spec fn table_seq_view(s: Seq<(String, DatasetData)>) -> Seq<(Seq<char>, DataV)>
    decreases s, 0int,
{
    if s.len() == 0 {
        Seq::empty()
    } else {
        table_seq_view(s.subrange(0, s.len() - 1)).push(table_entry_view(s.last()))
    }
}

/// Sequence views read one entry at a time.
pub broadcast proof fn lemma_data_seq_view(s: Seq<DatasetData>)
    ensures
        #![trigger data_seq_view(s)]
        data_seq_view(s).len() == s.len(),
        forall|i: int| 0 <= i < s.len() ==> data_seq_view(s)[i] == data_view(s[i]),
    decreases s.len(),
{
    if s.len() > 0 {
        lemma_data_seq_view(s.subrange(0, s.len() - 1));
        assert forall|i: int| 0 <= i < s.len() implies data_seq_view(s)[i] == data_view(s[i]) by {
            if i < s.len() - 1 {
                assert(s.subrange(0, s.len() - 1)[i] == s[i]);
            }
        }
    }
}

/// Table views read one entry at a time.
pub broadcast proof fn lemma_table_seq_view(s: Seq<(String, DatasetData)>)
    ensures
        #![trigger table_seq_view(s)]
        table_seq_view(s).len() == s.len(),
        forall|i: int| 0 <= i < s.len() ==> table_seq_view(s)[i] == table_entry_view(s[i]),
    decreases s.len(),
{
    if s.len() > 0 {
        lemma_table_seq_view(s.subrange(0, s.len() - 1));
        assert forall|i: int| 0 <= i < s.len() implies table_seq_view(s)[i] == table_entry_view(
            s[i],
        ) by {
            if i < s.len() - 1 {
                assert(s.subrange(0, s.len() - 1)[i] == s[i]);
            }
        }
    }
}

impl View for DatasetData {
    type V = DataV;

    open spec fn view(&self) -> DataV {
        data_view(*self)
    }
}

#[verifier::loop_isolation(false)]
fn clone_data(d: &DatasetData) -> (r: DatasetData)
    ensures
        r@ == d@,
    decreases *d,
{
    match d {
        DatasetData::Null => DatasetData::Null,
        DatasetData::Byte(b) => DatasetData::Byte(*b),
        DatasetData::Int(i) => DatasetData::Int(*i),
        DatasetData::Float(bits) => DatasetData::Float(*bits),
        DatasetData::String(s) => DatasetData::String(s.clone()),
        DatasetData::Array(items) => {
            let mut out: Vec<DatasetData> = Vec::new();
            let mut i: usize = 0;
            while i < items.len()
                invariant
                    i <= items.len(),
                    out@.len() == i,
                    forall|j: int| 0 <= j < i ==> data_view(out@[j]) == data_view(items@[j]),
                decreases items.len() - i,
            {
                out.push(clone_data(&items[i]));
                i = i + 1;
            }
            let r = DatasetData::Array(out);
            proof {
                lemma_data_seq_view(out@);
                lemma_data_seq_view(items@);
                assert(data_seq_view(out@) =~= data_seq_view(items@));
            }
            r
        },
        DatasetData::Table(entries) => {
            let mut out: Vec<(String, DatasetData)> = Vec::new();
            let mut i: usize = 0;
            while i < entries.len()
                invariant
                    i <= entries.len(),
                    out@.len() == i,
                    forall|j: int| 0 <= j < i ==> out@[j].0@ == entries@[j].0@ && data_view(
                        out@[j].1,
                    ) == data_view(entries@[j].1),
                decreases entries.len() - i,
            {
                let key = entries[i].0.clone();
                let value = clone_data(&entries[i].1);
                out.push((key, value));
                i = i + 1;
            }
            let r = DatasetData::Table(out);
            proof {
                lemma_table_seq_view(out@);
                lemma_table_seq_view(entries@);
                assert forall|j: int| 0 <= j < out@.len() implies table_seq_view(out@)[j]
                    == table_seq_view(entries@)[j] by {
                    assert(table_entry_view(out@[j]) == table_entry_view(entries@[j]));
                }
                assert(table_seq_view(out@) =~= table_seq_view(entries@));
            }
            r
        },
    }
}

impl Clone for DatasetData {
    fn clone(&self) -> (r: Self)
        ensures
            r@ == self@,
    {
        clone_data(self)
    }
}

/// The numeric value of a decimal digit character.
pub open spec fn digit_val(c: char) -> Option<int> {
    if c == '0' {
        Some(0int)
    } else if c == '1' {
        Some(1int)
    } else if c == '2' {
        Some(2int)
    } else if c == '3' {
        Some(3int)
    } else if c == '4' {
        Some(4int)
    } else if c == '5' {
        Some(5int)
    } else if c == '6' {
        Some(6int)
    } else if c == '7' {
        Some(7int)
    } else if c == '8' {
        Some(8int)
    } else if c == '9' {
        Some(9int)
    } else {
        None
    }
}

/// The value of a sequence of decimal digits; None when the sequence is
/// empty or holds a non-digit.
pub open spec fn digits_val(s: Seq<char>) -> Option<int>
    decreases s.len(),
{
    if s.len() == 0 {
        None
    } else if s.len() == 1 {
        digit_val(s[0])
    } else {
        match (digits_val(s.drop_last()), digit_val(s.last())) {
            (Some(v), Some(d)) => Some(v * 10 + d),
            _ => None,
        }
    }
}

/// How `usize::from_str` reads a string: an optional leading plus sign, then
/// decimal digits; the value must fit in a usize.
pub open spec fn parse_usize_spec(s: Seq<char>) -> Option<usize> {
    let t = if s.len() > 0 && s[0] == '+' {
        s.skip(1)
    } else {
        s
    };
    match digits_val(t) {
        Some(v) => if v <= usize::MAX {
            Some(v as usize)
        } else {
            None
        },
        None => None,
    }
}

fn char_digit(c: char) -> (r: Option<u64>)
    ensures
        match r {
            Some(d) => digit_val(c) == Some(d as int),
            None => digit_val(c) is None,
        },
{
    if c == '0' {
        Some(0u64)
    } else if c == '1' {
        Some(1u64)
    } else if c == '2' {
        Some(2u64)
    } else if c == '3' {
        Some(3u64)
    } else if c == '4' {
        Some(4u64)
    } else if c == '5' {
        Some(5u64)
    } else if c == '6' {
        Some(6u64)
    } else if c == '7' {
        Some(7u64)
    } else if c == '8' {
        Some(8u64)
    } else if c == '9' {
        Some(9u64)
    } else {
        None
    }
}

/// The numeric value of a decimal digit character, for callers outside the
/// parser.
pub fn char_digit_pub(c: char) -> (r: Option<u64>)
    ensures
        match r {
            Some(d) => digit_val(c) == Some(d as int) && d < 10,
            None => digit_val(c) is None,
        },
{
    char_digit(c)
}

/// Read a decimal value the way `usize::from_str` does: an optional leading
/// plus sign, then digits; None on any other character, on an empty number,
/// and on a value that does not fit.
#[verifier::loop_isolation(false)]
pub fn parse_usize(s: &str) -> (r: Option<usize>)
    ensures
        r == parse_usize_spec(s@),
{
    let n = s.unicode_len();
    let mut start: usize = 0;
    if n > 0 && s.get_char(0) == '+' {
        start = 1;
    }
    let ghost t: Seq<char> = if s@.len() > 0 && s@[0] == '+' {
        s@.skip(1)
    } else {
        s@
    };
    if start >= n {
        proof {
            assert(t.len() == 0);
        }
        return None;
    }
    let mut i: usize = start;
    let mut val: usize = 0;
    let mut over: bool = false;
    let ghost mut gval: int = 0;
    while i < n
        invariant
            start <= i <= n,
            n == s@.len(),
            start == 1 ==> s@.len() > 0 && s@[0] == '+' && t == s@.skip(1),
            start == 0 ==> t == s@ && !(s@.len() > 0 && s@[0] == '+'),
            start < n,
            t.len() == n - start,
            forall|j: int| 0 <= j < t.len() ==> t[j] == s@[j + start],
            i > start ==> digits_val(t.subrange(0, i - start)) == Some(gval),
            i == start ==> gval == 0,
            gval >= 0,
            !over ==> val == gval,
            over ==> gval > usize::MAX,
        decreases n - i,
    {
        let c = s.get_char(i);
        let d = match char_digit(c) {
            Some(d) => d,
            None => {
                proof {
                    if digits_val(t) is Some {
                        lemma_digits_val_all_digits(t);
                        assert(digit_val(t[i - start]) is Some);
                    }
                }
                return None;
            },
        };
        let du: usize = d as usize;
        proof {
            let prefix = t.subrange(0, i - start);
            let next = t.subrange(0, i + 1 - start);
            assert(next.drop_last() =~= prefix);
            assert(next.last() == t[i - start]);
            if i > start {
                assert(digits_val(next) == Some(gval * 10 + d));
            } else {
                assert(next.len() == 1);
                assert(digits_val(next) == Some(d as int));
            }
        }
        if i == start {
            val = du;
            proof {
                gval = d as int;
            }
        } else {
            if !over && val <= (usize::MAX - du) / 10 {
                val = val * 10 + du;
            } else {
                over = true;
            }
            proof {
                let old_gval = gval;
                gval = gval * 10 + d;
                if !over {
                } else {
                    if old_gval > usize::MAX {
                        assert(gval > usize::MAX);
                    } else {
                        assert(10 * old_gval + d > usize::MAX) by {
                            assert(old_gval > (usize::MAX - d) / 10);
                        };
                    }
                }
            }
        }
        i = i + 1;
    }
    proof {
        assert(t.subrange(0, t.len() as int) =~= t);
        assert(digits_val(t) == Some(gval));
    }
    if over {
        None
    } else {
        Some(val)
    }
}

proof fn lemma_digits_val_all_digits(s: Seq<char>)
    requires
        digits_val(s) is Some,
    ensures
        forall|j: int| 0 <= j < s.len() ==> digit_val(s[j]) is Some,
    decreases s.len(),
{
    if s.len() > 1 {
        lemma_digits_val_all_digits(s.drop_last());
        assert forall|j: int| 0 <= j < s.len() implies digit_val(s[j]) is Some by {
            if j < s.len() - 1 {
                assert(s.drop_last()[j] == s[j]);
            }
        }
    }
}

/// Looking a key up in keyed entries: the first entry with that key wins.
pub open spec fn map_first(entries: Seq<(Seq<char>, DataV)>, key: Seq<char>) -> DataV
    decreases entries.len(),
{
    if entries.len() == 0 {
        DataV::Null
    } else if entries[0].0 == key {
        entries[0].1
    } else {
        map_first(entries.skip(1), key)
    }
}

proof fn lemma_map_first_skip(entries: Seq<(Seq<char>, DataV)>, key: Seq<char>, i: int)
    requires
        0 <= i <= entries.len(),
        forall|j: int| 0 <= j < i ==> entries[j].0 != key,
    ensures
        map_first(entries, key) == map_first(entries.skip(i), key),
    decreases i,
{
    if i == 0 {
        assert(entries.skip(0) =~= entries);
    } else {
        assert forall|j: int| 0 <= j < i - 1 implies entries.skip(1)[j].0 != key by {
            assert(entries.skip(1)[j] == entries[j + 1]);
        }
        lemma_map_first_skip(entries.skip(1), key, i - 1);
        assert(entries.skip(1).skip(i - 1) =~= entries.skip(i));
    }
}

/// Nested lookup into a dataset entry: an array resolves a decimal index, a
/// map resolves a key, and everything else gives null.
pub open spec fn spec_get_property(d: DataV, key: Seq<char>) -> DataV {
    match d {
        DataV::Array(items) => match parse_usize_spec(key) {
            Some(i) => if (i as int) < items.len() {
                items[i as int]
            } else {
                DataV::Null
            },
            None => DataV::Null,
        },
        DataV::Table(entries) => map_first(entries, key),
        _ => DataV::Null,
    }
}

impl DatasetData {
    /// Look up a nested entry of an array or map; on any other variant, on a
    /// missing key, and on an index past the end, the result is null, so
    /// lookups can be chained without error.
    #[verifier::loop_isolation(false)]
    pub fn get_property<'a>(&'a self, property: &String) -> (r: &'a DatasetData)
        ensures
            r@ == spec_get_property(self@, property@),
    {
        match self {
            DatasetData::Array(items) => {
                match parse_usize(property.as_str()) {
                    Some(index) => {
                        if index < items.len() {
                            proof {
                                lemma_data_seq_view(items@);
                                assert(data_view(items@[index as int]) == spec_get_property(
                                    self@,
                                    property@,
                                ));
                            }
                            &items[index]
                        } else {
                            proof {
                                lemma_data_seq_view(items@);
                            }
                            &DatasetData::Null
                        }
                    },
                    None => &DatasetData::Null,
                }
            },
            DatasetData::Table(entries) => {
                let ghost eview = table_seq_view(entries@);
                let mut i: usize = 0;
                while i < entries.len()
                    invariant
                        i <= entries.len(),
                        eview == table_seq_view(entries@),
                        forall|j: int| 0 <= j < i ==> eview[j].0 != property@,
                    decreases entries.len() - i,
                {
                    if string_eq(&entries[i].0, property) {
                        proof {
                            lemma_table_seq_view(entries@);
                            lemma_map_first_skip(eview, property@, i as int);
                            assert(eview.skip(i as int)[0] == eview[i as int]);
                            assert(eview[i as int] == table_entry_view(entries@[i as int]));
                        }
                        return &entries[i].1;
                    }
                    proof {
                        lemma_table_seq_view(entries@);
                        assert(eview[i as int] == table_entry_view(entries@[i as int]));
                    }
                    i = i + 1;
                }
                proof {
                    lemma_table_seq_view(entries@);
                    lemma_map_first_skip(eview, property@, entries@.len() as int);
                }
                &DatasetData::Null
            },
            _ => &DatasetData::Null,
        }
    }
}

/// The text rendering of a dataset entry: null and floats render as
/// placeholders, numbers in decimal, strings as themselves, arrays inside
/// square brackets and tables inside braces, comma-separated.
pub open spec fn data_text(d: DataV) -> Seq<char>
    decreases d, 1int,
{
    match d {
        DataV::Null => seq!['<', 'n', 'u', 'l', 'l', '>'],
        DataV::Byte(b) => dec_str(b as nat),
        DataV::Int(i) => dec_str_i32(i as int),
        DataV::Float(bits) => seq!['<', 'f', 'l', 'o', 'a', 't', ':'] + dec_str(bits as nat)
            + seq!['>'],
        DataV::Str(s) => s,
        DataV::Array(items) => seq!['['] + data_texts(items) + seq![']'],
        DataV::Table(entries) => seq!['{'] + table_texts(entries) + seq!['}'],
    }
}

/// The comma-separated text renderings of a sequence of entries.
pub open spec fn data_texts(s: Seq<DataV>) -> Seq<char>
    decreases s, 0int,
{
    if s.len() == 0 {
        Seq::empty()
    } else if s.len() == 1 {
        data_text(s[0])
    } else {
        data_texts(s.subrange(0, s.len() - 1)) + seq![',', ' '] + data_text(s.last())
    }
}

/// The text rendering of one keyed entry: the key, a colon, the value.
pub open spec fn entry_text(e: (Seq<char>, DataV)) -> Seq<char>
    decreases e, 1int,
{
    e.0 + seq![':', ' '] + data_text(e.1)
}

/// The comma-separated text renderings of a sequence of keyed entries.
pub open spec fn table_texts(s: Seq<(Seq<char>, DataV)>) -> Seq<char>
    decreases s, 0int,
{
    if s.len() == 0 {
        Seq::empty()
    } else if s.len() == 1 {
        entry_text(s[0])
    } else {
        table_texts(s.subrange(0, s.len() - 1)) + seq![',', ' '] + entry_text(s.last())
    }
}

impl DatasetData {
    /// Render this entry as text.
    #[verifier::loop_isolation(false)]
    pub fn to_string(&self) -> (r: String)
        ensures
            r@ == data_text(self@),
        decreases *self,
    {
        match self {
            DatasetData::Null => {
                proof {
                    reveal_strlit("<null>");
                }
                let r: String = String::from_str("<null>");
                proof {
                    assert(r@ =~= data_text(self@));
                }
                r
            },
            DatasetData::Byte(b) => u64_to_string(*b as u64),
            DatasetData::Int(i) => i32_to_string(*i),
            DatasetData::Float(bits) => {
                proof {
                    reveal_strlit("<float:");
                    reveal_strlit(">");
                }
                let mut r: String = String::from_str("<float:");
                let digits = u64_to_string(*bits as u64);
                r.append(digits.as_str());
                r.append(">");
                proof {
                    assert(r@ =~= data_text(self@));
                }
                r
            },
            DatasetData::String(s) => s.clone(),
            DatasetData::Array(items) => {
                proof {
                    reveal_strlit("[");
                    reveal_strlit("]");
                    reveal_strlit(", ");
                    lemma_data_seq_view(items@);
                }
                let ghost dsv = data_vec_view(*items);
                let mut r: String = String::from_str("[");
                let mut i: usize = 0;
                proof {
                    assert(r@ =~= seq!['['] + data_texts(dsv.subrange(0, 0)));
                }
                while i < items.len()
                    invariant
                        i <= items.len(),
                        r@ == seq!['['] + data_texts(dsv.subrange(0, i as int)),
                    decreases items.len() - i,
                {
                    if i > 0 {
                        r.append(", ");
                    }
                    let part = items[i].to_string();
                    r.append(part.as_str());
                    proof {
                        let pre = dsv.subrange(0, i as int);
                        let next = dsv.subrange(0, i + 1);
                        assert(next.subrange(0, next.len() - 1) =~= pre);
                        assert(next.last() == data_view(items@[i as int]));
                        if i == 0 {
                            assert(next.len() == 1);
                            assert(next[0] == data_view(items@[0]));
                        }
                        assert(r@ =~= seq!['['] + data_texts(next));
                    }
                    i = i + 1;
                }
                r.append("]");
                proof {
                    assert(dsv.subrange(0, dsv.len() as int) =~= dsv);
                    assert(r@ =~= data_text(self@));
                }
                r
            },
            DatasetData::Table(entries) => {
                proof {
                    reveal_strlit("{");
                    reveal_strlit("}");
                    reveal_strlit(", ");
                    reveal_strlit(": ");
                    lemma_table_seq_view(entries@);
                }
                let ghost tsv = table_vec_view(*entries);
                let mut r: String = String::from_str("{");
                let mut i: usize = 0;
                proof {
                    assert(r@ =~= seq!['{'] + table_texts(tsv.subrange(0, 0)));
                }
                while i < entries.len()
                    invariant
                        i <= entries.len(),
                        r@ == seq!['{'] + table_texts(tsv.subrange(0, i as int)),
                    decreases entries.len() - i,
                {
                    if i > 0 {
                        r.append(", ");
                    }
                    r.append(entries[i].0.as_str());
                    r.append(": ");
                    let part = entries[i].1.to_string();
                    r.append(part.as_str());
                    proof {
                        let pre = tsv.subrange(0, i as int);
                        let next = tsv.subrange(0, i + 1);
                        assert(next.subrange(0, next.len() - 1) =~= pre);
                        assert(next.last() == table_entry_view(entries@[i as int]));
                        assert(entry_text(table_entry_view(entries@[i as int])) =~= entries@[
                            i as int
                        ].0@ + seq![':', ' '] + data_text(data_view(entries@[i as int].1)));
                        if i == 0 {
                            assert(next.len() == 1);
                            assert(next[0] == table_entry_view(entries@[0]));
                        }
                        assert(r@ =~= seq!['{'] + table_texts(next));
                    }
                    i = i + 1;
                }
                r.append("}");
                proof {
                    assert(tsv.subrange(0, tsv.len() as int) =~= tsv);
                    assert(r@ =~= data_text(self@));
                }
                r
            },
        }
    }
}

} // verus!
