use crate::pg_text::{trim_bpchar, trim_trailing_spaces};
use crate::columnar::Field;
use crate::provisioning::{create_index_sql, create_table_sql, OnConflict};
use crate::vector_search::views;
use vstd::prelude::*;
use vstd::string::*;

verus! {

/// Why the options of a table could not be read.
#[derive(Debug)]
pub enum Error {
    UnableToParseColumnReference { text: String },
    UnableToParseIndexes { text: String },
    UnableToParseOnConflict { text: String },
}

/// How an index is kept.
#[derive(Debug, Clone, Copy, PartialEq, Eq)]
pub enum IndexType {
    Enabled,
    Unique,
}

/// Where a pool keeps its database.
#[derive(Debug, Clone, Copy, PartialEq, Eq)]
pub enum Mode {
    Memory,
    File,
}

/// `s` cut at each `sep`: one more piece than separators.
pub open spec fn split_spec(s: Seq<char>, sep: char) -> Seq<Seq<char>>
    decreases s.len(),
{
    if s.len() == 0 {
        seq![Seq::empty()]
    } else {
        let p = split_spec(s.drop_last(), sep);
        if s.last() == sep {
            p.push(Seq::empty())
        } else {
            p.update(p.len() - 1, p.last().push(s.last()))
        }
    }
}

proof fn lemma_split_nonempty(s: Seq<char>, sep: char)
    ensures
        split_spec(s, sep).len() >= 1,
    decreases s.len(),
{
    if s.len() > 0 {
        lemma_split_nonempty(s.drop_last(), sep);
    }
}

/// Cuts `s` at each `sep`.
pub fn split_on(s: &str, sep: char) -> (r: Vec<String>)
    ensures
        views(r@) == split_spec(s@, sep),
{
    let n = s.unicode_len();
    let mut pieces: Vec<String> = Vec::new();
    let mut start: usize = 0;
    let mut i: usize = 0;
    assert(s@.take(0) =~= Seq::<char>::empty());
    assert(split_spec(Seq::<char>::empty(), sep) =~= views(pieces@).push(s@.subrange(0, 0)));
    while i < n
        invariant
            n == s@.len(),
            start <= i <= n,
            split_spec(s@.take(i as int), sep) == views(pieces@).push(s@.subrange(start as int, i as int)),
        decreases n - i,
    {
        let c = s.get_char(i);
        assert(s@.take(i + 1).drop_last() =~= s@.take(i as int));
        assert(s@.take(i + 1).last() == c);
        proof {
            lemma_split_nonempty(s@.take(i as int), sep);
        }
        if c == sep {
            let ghost before = views(pieces@);
            let piece = String::from_str(s.substring_char(start, i));
            pieces.push(piece);
            assert(views(pieces@) =~= before.push(s@.subrange(start as int, i as int)));
            start = i + 1;
            assert(s@.subrange(start as int, i + 1) =~= Seq::<char>::empty());
            assert(split_spec(s@.take(i + 1), sep) =~= views(pieces@).push(s@.subrange(start as int, i + 1)));
        } else {
            let ghost p = split_spec(s@.take(i as int), sep);
            assert(p.last() == s@.subrange(start as int, i as int));
            assert(s@.subrange(start as int, i + 1) =~= s@.subrange(start as int, i as int).push(c));
            assert(p.update(p.len() - 1, p.last().push(c)) =~= views(pieces@).push(s@.subrange(start as int, i + 1)));
            assert(split_spec(s@.take(i + 1), sep) =~= views(pieces@).push(s@.subrange(start as int, i + 1)));
        }
        i = i + 1;
    }
    let last = String::from_str(s.substring_char(start, n));
    pieces.push(last);
    assert(s@.take(n as int) =~= s@);
    assert(views(pieces@) =~= split_spec(s@, sep));
    pieces
}

/// `s` without its leading spaces.
pub open spec fn trim_leading_spaces(s: Seq<char>) -> Seq<char>
    decreases s.len(),
{
    if s.len() > 0 && s[0] == ' ' {
        trim_leading_spaces(s.skip(1))
    } else {
        s
    }
}

/// `s` without leading or trailing spaces.
pub open spec fn trim_spaces(s: Seq<char>) -> Seq<char> {
    trim_trailing_spaces(trim_leading_spaces(s))
}

/// Strips leading and trailing spaces.
pub fn trim(s: &str) -> (r: String)
    ensures
        r@ == trim_spaces(s@),
{
    let n = s.unicode_len();
    let mut a: usize = 0;
    assert(s@.skip(0) =~= s@);
    while a < n && s.get_char(a) == ' '
        invariant
            n == s@.len(),
            a <= n,
            trim_leading_spaces(s@) == trim_leading_spaces(s@.skip(a as int)),
        decreases n - a,
    {
        assert(s@.skip(a as int).skip(1) =~= s@.skip(a + 1));
        a = a + 1;
    }
    let rest = s.substring_char(a, n);
    assert(rest@ =~= s@.skip(a as int));
    trim_bpchar(rest)
}

/// The columns a column reference names: one name, or names in parentheses
/// separated by commas; spaces around names do not count.
pub open spec fn column_reference(s: Seq<char>) -> Option<Seq<Seq<char>>> {
    let t = trim_spaces(s);
    if t.len() >= 2 && t[0] == '(' && t.last() == ')' {
        let parts = split_spec(t.subrange(1, t.len() - 1), ',');
        let names = Seq::new(parts.len(), |i: int| trim_spaces(parts[i]));
        if forall|i: int| 0 <= i < names.len() ==> #[trigger] plain_name(names[i]) {
            Some(names)
        } else {
            None
        }
    } else if plain_name(t) {
        Some(seq![t])
    } else {
        None
    }
}

/// A non-empty name without parentheses or commas.
pub open spec fn plain_name(t: Seq<char>) -> bool {
    t.len() > 0 && forall|i: int| 0 <= i < t.len() ==> #[trigger] t[i] != '(' && t[i] != ')' && t[i] != ','
}

fn is_plain_name(t: &str) -> (r: bool)
    ensures
        r == plain_name(t@),
{
    let n = t.unicode_len();
    if n == 0 {
        return false;
    }
    let mut i: usize = 0;
    while i < n
        invariant
            n == t@.len(),
            i <= n,
            forall|k: int| 0 <= k < i ==> #[trigger] t@[k] != '(' && t@[k] != ')' && t@[k] != ',',
        decreases n - i,
    {
        let c = t.get_char(i);
        if c == '(' || c == ')' || c == ',' {
            return false;
        }
        i = i + 1;
    }
    true
}

/// Reads a column reference: `a` or `(a, b, ...)`.
pub fn parse_column_reference(s: &str) -> (r: Result<Vec<String>, Error>)
    ensures
        r is Ok <==> column_reference(s@) is Some,
        r matches Ok(names) ==> column_reference(s@) == Some(views(names@)),
{
    let t = trim(s);
    let n = t.as_str().unicode_len();
    if n >= 2 && t.as_str().get_char(0) == '(' && t.as_str().get_char(n - 1) == ')' {
        let inner = t.as_str().substring_char(1, n - 1);
        let parts = split_on(inner, ',');
        let ghost ps = views(parts@);
        assert(ps == split_spec(trim_spaces(s@).subrange(1, trim_spaces(s@).len() - 1), ','));
        let mut names: Vec<String> = Vec::new();
        let mut i: usize = 0;
        while i < parts.len()
            invariant
                ps == views(parts@),
                ps == split_spec(trim_spaces(s@).subrange(1, trim_spaces(s@).len() - 1), ','),
                trim_spaces(s@).len() >= 2 && trim_spaces(s@)[0] == '(' && trim_spaces(s@).last() == ')',
                i <= parts@.len(),
                names@.len() == i,
                forall|k: int| 0 <= k < i ==> #[trigger] names@[k]@ == trim_spaces(ps[k]),
                forall|k: int| 0 <= k < i ==> #[trigger] plain_name(trim_spaces(ps[k])),
            decreases parts@.len() - i,
        {
            let name = trim(parts[i].as_str());
            if !is_plain_name(name.as_str()) {
                assert(!plain_name(Seq::new(ps.len(), |k: int| trim_spaces(ps[k]))[i as int]));
                return Err(Error::UnableToParseColumnReference { text: String::from_str(s) });
            }
            names.push(name);
            i = i + 1;
        }
        assert(views(names@) =~= Seq::new(ps.len(), |k: int| trim_spaces(ps[k])));
        Ok(names)
    } else if is_plain_name(t.as_str()) {
        let mut names: Vec<String> = Vec::new();
        names.push(t);
        assert(views(names@) =~= seq![trim_spaces(s@)]);
        Ok(names)
    } else {
        Err(Error::UnableToParseColumnReference { text: String::from_str(s) })
    }
}

pub open spec fn index_type_of(t: Seq<char>) -> Option<IndexType> {
    if t == "unique"@ {
        Some(IndexType::Unique)
    } else if t == "enabled"@ {
        Some(IndexType::Enabled)
    } else {
        None
    }
}

/// One entry of the `indexes` option: `<columns>:<unique|enabled>`.
pub open spec fn index_entry(seg: Seq<char>) -> Option<(Seq<Seq<char>>, IndexType)> {
    let parts = split_spec(seg, ':');
    if parts.len() == 2 && column_reference(parts[0]) is Some && index_type_of(trim_spaces(parts[1])) is Some {
        Some((column_reference(parts[0])->0, index_type_of(trim_spaces(parts[1]))->0))
    } else {
        None
    }
}

/// The entries of the `indexes` option in order; blank entries are skipped
/// and any malformed entry makes the whole option malformed.
pub open spec fn index_entries(segs: Seq<Seq<char>>) -> Option<Seq<(Seq<Seq<char>>, IndexType)>>
    decreases segs.len(),
{
    if segs.len() == 0 {
        Some(Seq::empty())
    } else {
        match index_entries(segs.drop_last()) {
            None => None,
            Some(rest) => if trim_spaces(segs.last()).len() == 0 {
                Some(rest)
            } else {
                match index_entry(segs.last()) {
                    Some(e) => Some(rest.push(e)),
                    None => None,
                }
            },
        }
    }
}

proof fn lemma_index_entries_none(segs: Seq<Seq<char>>, j: int)
    requires
        0 <= j <= segs.len(),
        index_entries(segs.take(j)) is None,
    ensures
        index_entries(segs) is None,
    decreases segs.len() - j,
{
    if j == segs.len() {
        assert(segs.take(j) =~= segs);
    } else {
        assert(segs.take(j + 1).drop_last() =~= segs.take(j));
        lemma_index_entries_none(segs, j + 1);
    }
}

pub open spec fn indexes_view(v: Seq<(Vec<String>, IndexType)>) -> Seq<(Seq<Seq<char>>, IndexType)> {
    Seq::new(v.len(), |i: int| (views(v[i].0@), v[i].1))
}

fn is_literal(t: &String, lit: &str) -> (r: bool)
    ensures
        r == (t@ == lit@),
{
    let l = String::from_str(lit);
    *t == l
}

fn parse_index_type(t: &String) -> (r: Option<IndexType>)
    ensures
        r == index_type_of(t@),
{
    if is_literal(t, "unique") {
        Some(IndexType::Unique)
    } else if is_literal(t, "enabled") {
        Some(IndexType::Enabled)
    } else {
        None
    }
}

fn parse_index_entry(seg: &str) -> (r: Option<(Vec<String>, IndexType)>)
    ensures
        r matches Some(e) ==> index_entry(seg@) == Some((views(e.0@), e.1)),
        r is None ==> index_entry(seg@) is None,
{
    let parts = split_on(seg, ':');
    if parts.len() != 2 {
        return None;
    }
    let cols = match parse_column_reference(parts[0].as_str()) {
        Ok(cols) => cols,
        Err(_) => {
            return None;
        },
    };
    let kind = trim(parts[1].as_str());
    match parse_index_type(&kind) {
        Some(ty) => Some((cols, ty)),
        None => None,
    }
}

/// Reads the `indexes` option: `;`-separated `<columns>:<unique|enabled>` entries.
pub fn parse_indexes(s: &str) -> (r: Result<Vec<(Vec<String>, IndexType)>, Error>)
    ensures
        r is Ok <==> index_entries(split_spec(s@, ';')) is Some,
        r matches Ok(v) ==> index_entries(split_spec(s@, ';')) == Some(indexes_view(v@)),
{
    let segs = split_on(s, ';');
    let ghost ss = views(segs@);
    let mut out: Vec<(Vec<String>, IndexType)> = Vec::new();
    let mut i: usize = 0;
    while i < segs.len()
        invariant
            ss == views(segs@),
            ss == split_spec(s@, ';'),
            i <= segs@.len(),
            index_entries(ss.take(i as int)) == Some(indexes_view(out@)),
        decreases segs@.len() - i,
    {
        assert(ss.take(i + 1).drop_last() =~= ss.take(i as int));
        assert(ss.take(i + 1).last() == segs@[i as int]@);
        let t = trim(segs[i].as_str());
        if t.as_str().unicode_len() > 0 {
            match parse_index_entry(segs[i].as_str()) {
                Some(e) => {
                    let ghost before = indexes_view(out@);
                    out.push(e);
                    assert(indexes_view(out@) =~= before.push((views(e.0@), e.1)));
                },
                None => {
                    proof {
                        lemma_index_entries_none(ss, i + 1);
                    }
                    return Err(Error::UnableToParseIndexes { text: String::from_str(s) });
                },
            }
        }
        i = i + 1;
    }
    assert(ss.take(i as int) =~= ss);
    Ok(out)
}

/// The `on_conflict` option, `<columns>:<drop|upsert>`: the key columns, and
/// whether to overwrite.
pub open spec fn on_conflict_spec(s: Seq<char>) -> Option<(Seq<Seq<char>>, bool)> {
    let parts = split_spec(s, ':');
    if parts.len() == 2 && column_reference(parts[0]) is Some {
        let kind = trim_spaces(parts[1]);
        if kind == "drop"@ {
            Some((column_reference(parts[0])->0, false))
        } else if kind == "upsert"@ {
            Some((column_reference(parts[0])->0, true))
        } else {
            None
        }
    } else {
        None
    }
}

/// The key columns of a conflict policy, and whether it overwrites.
pub open spec fn on_conflict_view(oc: OnConflict) -> (Seq<Seq<char>>, bool) {
    match oc {
        OnConflict::Ignore(keys) => (views(keys@), false),
        OnConflict::Upsert(keys) => (views(keys@), true),
    }
}

/// Reads the `on_conflict` option.
pub fn parse_on_conflict(s: &str) -> (r: Result<OnConflict, Error>)
    ensures
        r is Ok <==> on_conflict_spec(s@) is Some,
        r matches Ok(oc) ==> on_conflict_spec(s@) == Some(on_conflict_view(oc)),
{
    let parts = split_on(s, ':');
    if parts.len() != 2 {
        return Err(Error::UnableToParseOnConflict { text: String::from_str(s) });
    }
    let keys = match parse_column_reference(parts[0].as_str()) {
        Ok(keys) => keys,
        Err(_) => {
            return Err(Error::UnableToParseOnConflict { text: String::from_str(s) });
        },
    };
    let kind = trim(parts[1].as_str());
    if is_literal(&kind, "drop") {
        Ok(OnConflict::Ignore(keys))
    } else if is_literal(&kind, "upsert") {
        Ok(OnConflict::Upsert(keys))
    } else {
        Err(Error::UnableToParseOnConflict { text: String::from_str(s) })
    }
}

/// The pool mode an option names: `file`, or else memory.
pub fn mode_from_option(value: Option<&String>) -> (r: Mode)
    ensures
        r == (if value matches Some(v) && v@ == "file"@ {
            Mode::File
        } else {
            Mode::Memory
        }),
{
    match value {
        Some(v) => if is_literal(v, "file") {
            Mode::File
        } else {
            Mode::Memory
        },
        None => Mode::Memory,
    }
}

/// No two pairs share a name: the pairs hold a map from name to value.
pub open spec fn keys_unique<V>(pairs: Seq<(String, V)>) -> bool {
    forall|i: int, j: int| 0 <= i < j < pairs.len() ==> pairs[i].0@ != pairs[j].0@
}

/// With names unique, the value found for a name is that of the one pair
/// with that name, and none is found where no pair has it.
pub proof fn lemma_option_value_unique(options: Seq<(String, String)>, key: Seq<char>)
    requires
        keys_unique(options),
    ensures
        forall|i: int| 0 <= i < options.len() && #[trigger] options[i].0@ == key ==> option_value(options, key)
            == Some(options[i].1@),
        option_value(options, key) is None <==> forall|i: int| 0 <= i < options.len() ==> #[trigger] options[i].0@ != key,
    decreases options.len(),
{
    if options.len() > 0 {
        let rest = options.skip(1);
        assert(keys_unique(rest)) by {
            assert forall|i: int, j: int| 0 <= i < j < rest.len() implies rest[i].0@ != rest[j].0@ by {
                assert(rest[i] == options[i + 1] && rest[j] == options[j + 1]);
            }
        }
        lemma_option_value_unique(rest, key);
        assert forall|i: int| 0 <= i < options.len() && #[trigger] options[i].0@ == key implies option_value(options, key)
            == Some(options[i].1@) by {
            if i > 0 {
                assert(rest[i - 1] == options[i]);
                assert(options[0].0@ != options[i].0@);
            }
        }
        if option_value(options, key) is None {
            assert forall|i: int| 0 <= i < options.len() implies #[trigger] options[i].0@ != key by {
                if i > 0 {
                    assert(rest[i - 1] == options[i]);
                }
            }
        }
        if forall|i: int| 0 <= i < options.len() ==> #[trigger] options[i].0@ != key {
            assert forall|i: int| 0 <= i < rest.len() implies #[trigger] rest[i].0@ != key by {
                assert(rest[i] == options[i + 1]);
            }
            assert(options[0].0@ != key);
        }
    }
}

/// The value of the option named `key`, from options held as pairs; the
/// callers' options have unique names (`keys_unique`), so it is the value of
/// the one pair with that name.
pub open spec fn option_value(options: Seq<(String, String)>, key: Seq<char>) -> Option<Seq<char>>
    decreases options.len(),
{
    if options.len() == 0 {
        None
    } else if options[0].0@ == key {
        Some(options[0].1@)
    } else {
        option_value(options.skip(1), key)
    }
}

/// Looks up the first option named `key`.
pub fn get_option<'a>(options: &'a Vec<(String, String)>, key: &str) -> (r: Option<&'a String>)
    ensures
        r matches Some(v) ==> option_value(options@, key@) == Some(v@),
        r is None ==> option_value(options@, key@) is None,
{
    let k = String::from_str(key);
    let mut i: usize = 0;
    assert(options@.skip(0) =~= options@);
    while i < options.len()
        invariant
            k@ == key@,
            i <= options@.len(),
            option_value(options@, key@) == option_value(options@.skip(i as int), key@),
        decreases options@.len() - i,
    {
        assert(options@.skip(i as int)[0] == options@[i as int]);
        assert(options@.skip(i as int).skip(1) =~= options@.skip(i + 1));
        if options[i].0 == k {
            return Some(&options[i].1);
        }
        i = i + 1;
    }
    None
}

/// Creates SQLite-backed tables from `CREATE EXTERNAL TABLE` options.
#[derive(Debug)]
pub struct SqliteTableFactory {
    pub db_path_param: String,
}

impl Default for SqliteTableFactory {
    fn default() -> (r: Self)
        ensures
            r.db_path_param@ == "sqlite_file"@,
    {
        SqliteTableFactory::new()
    }
}

/// What a `CREATE EXTERNAL TABLE` for SQLite asks for, once its options are read.
#[derive(Debug)]
pub struct TablePlan {
    pub name: String,
    pub mode: Mode,
    pub indexes: Vec<(Vec<String>, IndexType)>,
    pub on_conflict: Option<OnConflict>,
    pub db_path: String,
}

impl SqliteTableFactory {
    pub fn new() -> (r: Self)
        ensures
            r.db_path_param@ == "sqlite_file"@,
    {
        SqliteTableFactory { db_path_param: String::from_str("sqlite_file") }
    }

    /// The database file of a table: the path option, or `<table>_sqlite.db`.
    pub fn db_path(&self, options: &Vec<(String, String)>, table: &str) -> (r: String)
        requires
            keys_unique(options@),
        ensures
            r@ == match option_value(options@, self.db_path_param@) {
                Some(v) => v,
                None => table@ + "_sqlite.db"@,
            },
    {
        match get_option(options, self.db_path_param.as_str()) {
            Some(v) => v.clone(),
            None => {
                let mut p = String::from_str(table);
                p.append("_sqlite.db");
                p
            },
        }
    }

    /// Reads the options of a `CREATE EXTERNAL TABLE`: the mode, the indexes,
    /// the conflict policy and the database path. Malformed `indexes` or
    /// `on_conflict` options are errors.
    pub fn plan(&self, name: &str, options: &Vec<(String, String)>) -> (r: Result<TablePlan, Error>)
        requires
            keys_unique(options@),
        ensures
            r is Ok <==> (match option_value(options@, "indexes"@) {
                Some(v) => index_entries(split_spec(v, ';')) is Some,
                None => true,
            } && match option_value(options@, "on_conflict"@) {
                Some(v) => on_conflict_spec(v) is Some,
                None => true,
            }),
            r matches Ok(p) ==> {
                &&& p.name@ == name@
                &&& p.mode == (if option_value(options@, "mode"@) == Some("file"@) {
                    Mode::File
                } else {
                    Mode::Memory
                })
                &&& match option_value(options@, "indexes"@) {
                    Some(v) => index_entries(split_spec(v, ';')) == Some(indexes_view(p.indexes@)),
                    None => p.indexes@.len() == 0,
                }
                &&& match option_value(options@, "on_conflict"@) {
                    Some(v) => p.on_conflict matches Some(oc) && on_conflict_spec(v) == Some(on_conflict_view(oc)),
                    None => p.on_conflict is None,
                }
                &&& p.db_path@ == match option_value(options@, self.db_path_param@) {
                    Some(v) => v,
                    None => name@ + "_sqlite.db"@,
                }
            },
    {
        let mode = mode_from_option(get_option(options, "mode"));
        let indexes = match get_option(options, "indexes") {
            Some(v) => parse_indexes(v.as_str())?,
            None => Vec::new(),
        };
        let on_conflict = match get_option(options, "on_conflict") {
            Some(v) => Some(parse_on_conflict(v.as_str())?),
            None => None,
        };
        let db_path = self.db_path(options, name);
        Ok(TablePlan { name: String::from_str(name), mode, indexes, on_conflict, db_path })
    }
}

/// The statements that set up a table that does not exist yet: the table,
/// then each index in order. None for a table that exists; `None` where the
/// schema has a type SQLite cannot hold.
pub fn provisioning_statements(plan: &TablePlan, schema: &Vec<Field>, primary_keys: &Vec<String>, table_exists: bool) -> (r: Option<Vec<String>>)
    ensures
        table_exists ==> (r matches Some(v) && v@.len() == 0),
        !table_exists ==> (r is Some <==> crate::provisioning::all_typed(schema@)),
        r matches Some(v) ==> !table_exists ==> v@.len() == plan.indexes@.len() + 1
            && v@[0]@ == crate::provisioning::create_table_query(plan.name@, schema@, views(primary_keys@))
            && forall|i: int| 0 <= i < plan.indexes@.len() ==> #[trigger] v@[i + 1]@ == crate::provisioning::create_index_query(
                plan.name@,
                views(plan.indexes@[i].0@),
                plan.indexes@[i].1 == IndexType::Unique,
            ),
{
    let mut out: Vec<String> = Vec::new();
    if table_exists {
        return Some(out);
    }
    match create_table_sql(plan.name.as_str(), schema, primary_keys) {
        Some(s) => out.push(s),
        None => {
            return None;
        },
    }
    let mut i: usize = 0;
    while i < plan.indexes.len()
        invariant
            i <= plan.indexes@.len(),
            out@.len() == i + 1,
            out@[0]@ == crate::provisioning::create_table_query(plan.name@, schema@, views(primary_keys@)),
            forall|k: int| 0 <= k < i ==> #[trigger] out@[k + 1]@ == crate::provisioning::create_index_query(
                plan.name@,
                views(plan.indexes@[k].0@),
                plan.indexes@[k].1 == IndexType::Unique,
            ),
        decreases plan.indexes@.len() - i,
    {
        let (cols, ty) = (&plan.indexes[i].0, plan.indexes[i].1);
        let unique = match ty {
            IndexType::Unique => true,
            IndexType::Enabled => false,
        };
        out.push(create_index_sql(plan.name.as_str(), cols, unique));
        i = i + 1;
    }
    Some(out)
}

} // verus!
