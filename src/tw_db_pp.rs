//! The value model: scalar cell values, table shapes, and pre-processed tables.

use vstd::prelude::*;

verus! {

/// The mathematical value of a `LuaValue`.
pub enum LuaVal {
    Number(Seq<char>),
    Text(Seq<char>),
    Boolean(bool),
}

/// A scalar cell value, normalized from whatever the decoder produced.
#[derive(Debug, Clone)]
pub enum LuaValue {
    /// A numeric literal, kept in the decoder's own textual form.
    Number(String),
    Text(String),
    Boolean(bool),
}

impl View for LuaValue {
    type V = LuaVal;

    open spec fn view(&self) -> LuaVal {
        match self {
            LuaValue::Number(s) => LuaVal::Number(s@),
            LuaValue::Text(s) => LuaVal::Text(s@),
            LuaValue::Boolean(b) => LuaVal::Boolean(*b),
        }
    }
}

/// Lua source text of a scalar: booleans and numbers bare, text in double quotes (not escaped).
pub open spec fn render_value(v: LuaVal) -> Seq<char> {
    match v {
        LuaVal::Boolean(b) => if b {
            "true"@
        } else {
            "false"@
        },
        LuaVal::Number(s) => s,
        LuaVal::Text(s) => "\""@ + s + "\""@,
    }
}

/// Lexicographic order of character sequences, by code point.
pub open spec fn chars_lt(a: Seq<char>, b: Seq<char>) -> bool
    decreases a.len(),
{
    if a.len() == 0 {
        b.len() > 0
    } else if b.len() == 0 {
        false
    } else if a[0] != b[0] {
        a[0] < b[0]
    } else {
        chars_lt(a.drop_first(), b.drop_first())
    }
}

pub open spec fn rank(v: LuaVal) -> int {
    match v {
        LuaVal::Number(_) => 0,
        LuaVal::Text(_) => 1,
        LuaVal::Boolean(_) => 2,
    }
}

/// The order of keys in a key-value table: numbers before text before booleans,
/// then by content.
pub open spec fn val_lt(a: LuaVal, b: LuaVal) -> bool {
    if rank(a) != rank(b) {
        rank(a) < rank(b)
    } else {
        match (a, b) {
            (LuaVal::Number(x), LuaVal::Number(y)) => chars_lt(x, y),
            (LuaVal::Text(x), LuaVal::Text(y)) => chars_lt(x, y),
            (LuaVal::Boolean(x), LuaVal::Boolean(y)) => !x && y,
            _ => false,
        }
    }
}

pub proof fn lemma_chars_lt_strict(a: Seq<char>, b: Seq<char>)
    ensures
        !(chars_lt(a, b) && chars_lt(b, a)),
        !chars_lt(a, a),
        a != b ==> chars_lt(a, b) || chars_lt(b, a),
    decreases a.len(),
{
    if a.len() > 0 && b.len() > 0 {
        lemma_chars_lt_strict(a.drop_first(), b.drop_first());
        if a[0] == b[0] && a != b {
            assert(a =~= seq![a[0]] + a.drop_first());
            assert(b =~= seq![b[0]] + b.drop_first());
        }
        lemma_chars_lt_strict(a.drop_first(), a.drop_first());
    } else if a.len() > 0 {
        lemma_chars_lt_strict(a.drop_first(), a.drop_first());
    } else if b.len() == 0 {
        assert(a =~= b);
    }
}

pub proof fn lemma_chars_lt_trans(a: Seq<char>, b: Seq<char>, c: Seq<char>)
    requires
        chars_lt(a, b),
        chars_lt(b, c),
    ensures
        chars_lt(a, c),
    decreases a.len(),
{
    if a.len() > 0 && a[0] == b[0] && b[0] == c[0] {
        lemma_chars_lt_trans(a.drop_first(), b.drop_first(), c.drop_first());
    }
}

pub proof fn lemma_val_lt_strict(a: LuaVal, b: LuaVal)
    ensures
        !(val_lt(a, b) && val_lt(b, a)),
        !val_lt(a, a),
        a != b ==> val_lt(a, b) || val_lt(b, a),
{
    match (a, b) {
        (LuaVal::Number(x), LuaVal::Number(y)) => lemma_chars_lt_strict(x, y),
        (LuaVal::Text(x), LuaVal::Text(y)) => lemma_chars_lt_strict(x, y),
        (LuaVal::Number(x), _) => lemma_chars_lt_strict(x, x),
        (LuaVal::Text(x), _) => lemma_chars_lt_strict(x, x),
        _ => {},
    }
}

pub proof fn lemma_val_lt_trans(a: LuaVal, b: LuaVal, c: LuaVal)
    requires
        val_lt(a, b),
        val_lt(b, c),
    ensures
        val_lt(a, c),
{
    match (a, b, c) {
        (LuaVal::Number(x), LuaVal::Number(y), LuaVal::Number(z)) => lemma_chars_lt_trans(x, y, z),
        (LuaVal::Text(x), LuaVal::Text(y), LuaVal::Text(z)) => lemma_chars_lt_trans(x, y, z),
        _ => {},
    }
}

proof fn lemma_chars_lt_skip(a: Seq<char>, b: Seq<char>, i: int)
    requires
        0 <= i <= a.len(),
        i <= b.len(),
        a.take(i) == b.take(i),
    ensures
        chars_lt(a, b) == chars_lt(a.skip(i), b.skip(i)),
    decreases i,
{
    if i > 0 {
        assert(a[0] == a.take(i)[0]);
        assert(b[0] == b.take(i)[0]);
        assert(a.drop_first().take(i - 1) =~= a.take(i).drop_first());
        assert(b.drop_first().take(i - 1) =~= b.take(i).drop_first());
        lemma_chars_lt_skip(a.drop_first(), b.drop_first(), i - 1);
        assert(a.drop_first().skip(i - 1) =~= a.skip(i));
        assert(b.drop_first().skip(i - 1) =~= b.skip(i));
    } else {
        assert(a.skip(0) =~= a);
        assert(b.skip(0) =~= b);
    }
}

/// The characters of a string, one by one.
pub fn chars_of(s: &str) -> (r: Vec<char>)
    ensures
        r@ == s@,
{
    let mut r: Vec<char> = Vec::new();
    for c in it: s.chars()
        invariant
            r@ == it.seq().take(it.index() as int),
    {
        r.push(c);
    }
    r
}

/// Three-way comparison of two strings by `chars_lt`.
pub(crate) fn compare_text(a: &str, b: &str) -> (r: i8)
    ensures
        r < 0 <==> chars_lt(a@, b@),
        r == 0 <==> a@ == b@,
        r > 0 <==> chars_lt(b@, a@),
{
    let x = chars_of(a);
    let y = chars_of(b);
    proof {
        lemma_chars_lt_strict(a@, b@);
    }
    let mut i: usize = 0;
    while i < x.len() && i < y.len()
        invariant
            x@ == a@,
            y@ == b@,
            i <= x.len(),
            i <= y.len(),
            x@.take(i as int) == y@.take(i as int),
        decreases x.len() - i,
    {
        if x[i] != y[i] {
            proof {
                lemma_chars_lt_skip(x@, y@, i as int);
                lemma_chars_lt_skip(y@, x@, i as int);
                assert(x@.skip(i as int)[0] == x@[i as int]);
                assert(y@.skip(i as int)[0] == y@[i as int]);
            }
            if x[i] < y[i] {
                return -1;
            } else {
                return 1;
            }
        }
        proof {
            assert(x@.take(i + 1) =~= x@.take(i as int).push(x@[i as int]));
            assert(y@.take(i + 1) =~= y@.take(i as int).push(y@[i as int]));
        }
        i = i + 1;
    }
    proof {
        lemma_chars_lt_skip(x@, y@, i as int);
        lemma_chars_lt_skip(y@, x@, i as int);
        if x.len() == y.len() {
            assert(x@ =~= x@.take(i as int));
            assert(y@ =~= y@.take(i as int));
        }
    }
    if x.len() < y.len() {
        -1
    } else if x.len() == y.len() {
        0
    } else {
        1
    }
}

/// Three-way comparison of two values by `val_lt`.
pub fn compare_values(a: &LuaValue, b: &LuaValue) -> (r: i8)
    ensures
        r < 0 <==> val_lt(a@, b@),
        r == 0 <==> a@ == b@,
        r > 0 <==> val_lt(b@, a@),
{
    proof {
        lemma_val_lt_strict(a@, b@);
    }
    match (a, b) {
        (LuaValue::Number(x), LuaValue::Number(y)) => compare_text(x.as_str(), y.as_str()),
        (LuaValue::Text(x), LuaValue::Text(y)) => compare_text(x.as_str(), y.as_str()),
        (LuaValue::Boolean(x), LuaValue::Boolean(y)) => {
            if *x == *y {
                0
            } else if !*x {
                -1
            } else {
                1
            }
        },
        (LuaValue::Number(_), _) => -1,
        (LuaValue::Boolean(_), _) => 1,
        (LuaValue::Text(_), LuaValue::Number(_)) => 1,
        (LuaValue::Text(_), _) => -1,
    }
}

impl LuaValue {
    /// The value as Lua source text.
    pub fn to_lua_value(&self) -> (r: String)
        ensures
            r@ == render_value(self@),
    {
        match self {
            LuaValue::Boolean(b) => {
                if *b {
                    String::from_str("true")
                } else {
                    String::from_str("false")
                }
            },
            LuaValue::Number(s) => s.clone(),
            LuaValue::Text(s) => {
                let mut r = String::from_str("\"");
                r.append(s.as_str());
                r.append("\"");
                r
            },
        }
    }
}

} // verus!

verus! {

/// One (field name, value) entry of a row, as values.
pub open spec fn pair_view(p: (LuaValue, LuaValue)) -> (LuaVal, LuaVal) {
    (p.0@, p.1@)
}

/// A row's entries as values.
pub open spec fn pairs_view(ps: Seq<(LuaValue, LuaValue)>) -> Seq<(LuaVal, LuaVal)> {
    ps.map_values(|p: (LuaValue, LuaValue)| pair_view(p))
}

/// The mathematical value of a `TableData`.
pub enum TableDataV {
    KeyValue(Seq<(LuaVal, Seq<(LuaVal, LuaVal)>)>),
    FlatArray(Seq<Seq<(LuaVal, LuaVal)>>),
}

/// The rows of one table, in the shape chosen for it.
#[derive(Debug, Clone)]
pub enum TableData {
    /// Rows by the value of the single key field, in ascending key order (`val_lt`), one entry
    /// per key.
    KeyValue(Vec<(LuaValue, Vec<(LuaValue, LuaValue)>)>),
    /// Rows in the order they were decoded.
    FlatArray(Vec<Vec<(LuaValue, LuaValue)>>),
}

impl View for TableData {
    type V = TableDataV;

    open spec fn view(&self) -> TableDataV {
        match self {
            TableData::KeyValue(es) => TableDataV::KeyValue(
                es@.map_values(
                    |e: (LuaValue, Vec<(LuaValue, LuaValue)>)| (e.0@, pairs_view(e.1@)),
                ),
            ),
            TableData::FlatArray(rows) => TableDataV::FlatArray(
                rows@.map_values(|r: Vec<(LuaValue, LuaValue)>| pairs_view(r@)),
            ),
        }
    }
}

/// A decoded table, normalized and placed: what one script file is made from.
#[derive(Debug, Clone)]
pub struct TotalWarDbPreProcessed {
    pub table_name: String,
    /// The script's path below the output root, one component per entry.
    pub script_file_path: Vec<String>,
    pub data: TableData,
}

pub open spec fn path_view(p: Seq<String>) -> Seq<Seq<char>> {
    p.map_values(|s: String| s@)
}

/// The mathematical value of a `TotalWarDbPreProcessed`.
pub struct PreprocessedV {
    pub table_name: Seq<char>,
    pub path: Seq<Seq<char>>,
    pub data: TableDataV,
}

impl View for TotalWarDbPreProcessed {
    type V = PreprocessedV;

    open spec fn view(&self) -> PreprocessedV {
        PreprocessedV {
            table_name: self.table_name@,
            path: path_view(self.script_file_path@),
            data: self.data@,
        }
    }
}

impl TotalWarDbPreProcessed {
    pub fn new(table_name: &str, data: TableData, script_file_path: Vec<String>) -> (r: Self)
        ensures
            r.table_name@ == table_name@,
            r.data == data,
            r.script_file_path == script_file_path,
    {
        TotalWarDbPreProcessed { table_name: String::from_str(table_name), script_file_path, data }
    }

    /// Where the script goes: the output directory, then the script's own path.
    pub fn output_file_path(&self, config: &crate::config::Config) -> (r: Vec<String>)
        ensures
            path_view(r@) == path_view(config.out_dir@) + path_view(self.script_file_path@),
    {
        let mut r: Vec<String> = Vec::new();
        let mut i: usize = 0;
        while i < config.out_dir.len()
            invariant
                i <= config.out_dir.len(),
                path_view(r@) == path_view(config.out_dir@).take(i as int),
            decreases config.out_dir.len() - i,
        {
            let ghost old_r = r@;
            let c = config.out_dir[i].clone();
            r.push(c);
            proof {
                assert(path_view(r@) =~= path_view(old_r).push(c@));
                assert(path_view(r@) =~= path_view(config.out_dir@).take(i + 1));
            }
            i = i + 1;
        }
        let mut j: usize = 0;
        while j < self.script_file_path.len()
            invariant
                i == config.out_dir.len(),
                j <= self.script_file_path.len(),
                path_view(r@) == path_view(config.out_dir@) + path_view(self.script_file_path@).take(
                    j as int,
                ),
            decreases self.script_file_path.len() - j,
        {
            let ghost old_r = r@;
            let c = self.script_file_path[j].clone();
            r.push(c);
            proof {
                assert(path_view(r@) =~= path_view(old_r).push(c@));
                assert(path_view(r@) =~= path_view(config.out_dir@) + path_view(
                    self.script_file_path@,
                ).take(j + 1));
            }
            j = j + 1;
        }
        proof {
            assert(path_view(config.out_dir@).take(i as int) =~= path_view(config.out_dir@));
            assert(path_view(self.script_file_path@).take(j as int) =~= path_view(
                self.script_file_path@,
            ));
        }
        r
    }
}

} // verus!
