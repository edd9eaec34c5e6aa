//! Registration of models: paths, statements and listings.

use vstd::prelude::*;
use vstd::string::*;

use crate::pg::error::PgInferError;
use crate::text::{
    all_digits, append_decimal, chars_of, decimal, decimal_says_the_number, digits_value, same_text,
    starts_with,
};

verus! {

/// Directory of the server's data where the environment does not say.
pub const DEFAULT_PGDATA: &'static str = "/var/lib/postgresql/data";

/// `s` with every `c` doubled.
pub open spec fn doubled(s: Seq<char>, c: char) -> Seq<char>
    decreases s.len(),
{
    if s.len() == 0 {
        seq![]
    } else if s.last() == c {
        doubled(s.drop_last(), c) + seq![c, c]
    } else {
        doubled(s.drop_last(), c).push(s.last())
    }
}

/// `s` with every pair of `c` made one; `None` where a `c` stands alone.
pub open spec fn undoubled(s: Seq<char>, c: char) -> Option<Seq<char>>
    decreases s.len(),
{
    if s.len() == 0 {
        Some(seq![])
    } else if s.last() != c {
        match undoubled(s.drop_last(), c) {
            Some(t) => Some(t.push(s.last())),
            None => None,
        }
    } else if s.len() >= 2 && s[s.len() - 2] == c {
        match undoubled(s.take(s.len() - 2), c) {
            Some(t) => Some(t.push(c)),
            None => None,
        }
    } else {
        None
    }
}

/// A text is found again in its doubled form, in which no `c` stands alone.
pub proof fn undoubled_of_doubled(s: Seq<char>, c: char)
    ensures
        undoubled(doubled(s, c), c) == Some(s),
    decreases s.len(),
{
    if s.len() > 0 {
        undoubled_of_doubled(s.drop_last(), c);
        let d = doubled(s.drop_last(), c);
        let full = doubled(s, c);
        if s.last() == c {
            assert(full.take(full.len() - 2) =~= d);
        } else {
            assert(full.drop_last() =~= d);
        }
        assert(s.drop_last().push(s.last()) =~= s);
    }
}

/// Doubles every `c`.
pub fn double(s: &str, c: char) -> (t: String)
    ensures
        t@ == doubled(s@, c),
{
    let v: Vec<char> = chars_of(s);
    let mut t: String = String::new();
    let mut i: usize = 0;
    while i < v.len()
        invariant
            i <= v@.len(),
            t@ == doubled(v@.take(i as int), c),
        decreases v@.len() - i,
    {
        let ghost before = t@;
        t.push(v[i]);
        if v[i] == c {
            t.push(c);
        }
        i = i + 1;
        proof {
            let p = v@.take(i as int);
            assert(p.drop_last() =~= v@.take(i - 1));
            assert(p.last() == v@[i - 1]);
            assert(t@ =~= doubled(p, c));
        }
    }
    assert(v@.take(i as int) =~= v@);
    t
}

/// The statement that drops the index of a model.
pub open spec fn drop_index_text(model_name: Seq<char>) -> Seq<char> {
    "DROP INDEX IF EXISTS infer.\""@ + doubled(model_name, '"') + "\""@
}

/// The statement that drops the index of a model.
pub fn drop_index_sql(model_name: &str) -> (s: String)
    ensures
        s@ == drop_index_text(model_name@),
{
    let mut s: String = String::from_str("DROP INDEX IF EXISTS infer.\"");
    let name: String = double(model_name, '"');
    s.append(name.as_str());
    s.append("\"");
    s
}

/// The statement that creates the index of a model.
pub open spec fn create_index_text(model_name: Seq<char>, vindex_path: Seq<char>) -> Seq<char> {
    "CREATE INDEX \""@ + doubled(model_name, '"')
        + "\" ON infer._models USING infer (name) WITH (source = '"@ + doubled(vindex_path, '\'')
        + "')"@
}

/// The statement that creates the index of a model.
pub fn create_index_sql(model_name: &str, vindex_path: &str) -> (s: String)
    ensures
        s@ == create_index_text(model_name@, vindex_path@),
{
    let mut s: String = String::from_str("CREATE INDEX \"");
    let name: String = double(model_name, '"');
    s.append(name.as_str());
    s.append("\" ON infer._models USING infer (name) WITH (source = '");
    let path: String = double(vindex_path, '\'');
    s.append(path.as_str());
    s.append("')");
    s
}

/// The decimal digits of a number, with a sign where it is below zero.
pub open spec fn signed_decimal(n: i32) -> Seq<char> {
    if n < 0 {
        seq!['-'] + decimal((-n) as nat)
    } else {
        decimal(n as nat)
    }
}

/// Appends a number that may be below zero.
fn append_signed(s: &mut String, n: i32)
    ensures
        final(s)@ == old(s)@ + signed_decimal(n),
{
    if n < 0 {
        s.push('-');
        let m: i64 = -(n as i64);
        append_decimal(s, m as u128);
    } else {
        append_decimal(s, n as u128);
    }
    assert(s@ =~= old(s)@ + signed_decimal(n));
}

/// What is said of a model that was registered.
pub open spec fn registered_text(
    model_name: Seq<char>,
    num_layers: i32,
    hidden_size: i32,
    level: Seq<char>,
) -> Seq<char> {
    "model '"@ + model_name + "' registered ("@ + signed_decimal(num_layers) + " layers, hidden="@
        + signed_decimal(hidden_size) + ", level="@ + level + ")"@
}

/// What is said of a model that was registered.
pub fn registered_message(model_name: &str, num_layers: i32, hidden_size: i32, level: &str) -> (s:
    String)
    ensures
        s@ == registered_text(model_name@, num_layers, hidden_size, level@),
{
    let mut s: String = String::from_str("model '");
    s.append(model_name);
    s.append("' registered (");
    append_signed(&mut s, num_layers);
    s.append(" layers, hidden=");
    append_signed(&mut s, hidden_size);
    s.append(", level=");
    s.append(level);
    s.append(")");
    s
}

/// What is said of a model that was dropped.
pub fn dropped_message(model_name: &str) -> (s: String)
    ensures
        s@ == "model '"@ + model_name@ + "' dropped"@,
{
    let mut s: String = String::from_str("model '");
    s.append(model_name);
    s.append("' dropped");
    s
}

/// A registered model. `registered_at` counts microseconds from the year
/// 2000.
pub struct ModelRow {
    pub model_name: String,
    pub vindex_path: String,
    pub source: String,
    pub extract_level: String,
    pub num_layers: Option<i32>,
    pub hidden_size: Option<i32>,
    pub vocab_size: Option<i32>,
    pub registered_at: i64,
}

/// Whether one of `rows` has this name.
pub open spec fn listed(rows: Seq<ModelRow>, name: Seq<char>) -> bool {
    exists|i: int| 0 <= i < rows.len() && (#[trigger] rows[i]).model_name@ == name
}

/// Whether `row` stands for an index that is not in the table.
pub open spec fn is_index_only(row: ModelRow, name: Seq<char>) -> bool {
    &&& row.model_name@ == name
    &&& row.vindex_path@ == "(stored in PG pages)"@
    &&& row.source@.len() == 0
    &&& row.extract_level@ == "browse"@
    &&& row.num_layers is None
    &&& row.hidden_size is None
    &&& row.vocab_size is None
    &&& row.registered_at == 0
}

/// The names of `names` that no row has, in their order.
pub open spec fn unlisted(rows: Seq<ModelRow>, names: Seq<String>) -> Seq<Seq<char>>
    decreases names.len(),
{
    if names.len() == 0 {
        seq![]
    } else if listed(rows, names.last()@) {
        unlisted(rows, names.drop_last())
    } else {
        unlisted(rows, names.drop_last()).push(names.last()@)
    }
}

/// The models of the table and, after them, the indexes that are not in it.
pub fn merge_models(rows: Vec<ModelRow>, index_names: &Vec<String>) -> (all: Vec<ModelRow>)
    ensures
        ({
            let more = unlisted(rows@, index_names@);
            &&& all@.len() == rows@.len() + more.len()
            &&& all@.take(rows@.len() as int) == rows@
            &&& forall|i: int|
                0 <= i < more.len() ==> is_index_only(
                    all@[rows@.len() + i],
                    #[trigger] more[i],
                )
        }),
{
    let ghost table = rows@;
    let n: usize = rows.len();
    let mut all: Vec<ModelRow> = rows;
    let mut i: usize = 0;
    assert(all@.take(n as int) =~= table);
    while i < index_names.len()
        invariant
            i <= index_names@.len(),
            n == table.len(),
            n <= all@.len(),
            all@.take(n as int) == table,
            all@.len() == n + unlisted(table, index_names@.take(i as int)).len(),
            forall|k: int|
                0 <= k < unlisted(table, index_names@.take(i as int)).len() ==> is_index_only(
                    all@[n + k],
                    #[trigger] unlisted(table, index_names@.take(i as int))[k],
                ),
        decreases index_names@.len() - i,
    {
        let name: &String = &index_names[i];
        let ghost more = unlisted(table, index_names@.take(i as int));
        proof {
            let t = index_names@.take(i + 1);
            assert(t.drop_last() =~= index_names@.take(i as int));
            assert(t.last() == index_names@[i as int]);
        }
        let mut seen: bool = false;
        let mut k: usize = 0;
        while k < n && !seen
            invariant
                k <= n,
                n == table.len(),
                n <= all@.len(),
                all@.take(n as int) == table,
                seen ==> listed(table, name@),
                !seen ==> forall|j: int| 0 <= j < k ==> (#[trigger] table[j]).model_name@ != name@,
            decreases n - k + if seen {
                0int
            } else {
                1int
            },
        {
            assert(all@.take(n as int)[k as int] == all@[k as int]);
            if same_text(all[k].model_name.as_str(), name.as_str()) {
                assert(table[k as int].model_name@ == name@);
                seen = true;
            } else {
                k = k + 1;
            }
        }
        if !seen {
            let ghost old_all = all@;
            all.push(
                ModelRow {
                    model_name: name.clone(),
                    vindex_path: String::from_str("(stored in PG pages)"),
                    source: String::new(),
                    extract_level: String::from_str("browse"),
                    num_layers: None,
                    hidden_size: None,
                    vocab_size: None,
                    registered_at: 0,
                },
            );
            proof {
                let now = unlisted(table, index_names@.take(i + 1));
                assert(now == more.push(name@));
                assert forall|j: int| 0 <= j < now.len() implies is_index_only(
                    all@[n + j],
                    #[trigger] now[j],
                ) by {
                    if j < more.len() {
                        assert(now[j] == more[j]);
                        assert(all@[n + j] == old_all[n + j]);
                    }
                }
                assert(all@.take(n as int) =~= table);
            }
        }
        i = i + 1;
    }
    assert(index_names@.take(i as int) =~= index_names@);
    all
}

/// Whether a path is absolute.
pub open spec fn absolute(path: Seq<char>) -> bool {
    path.len() > 0 && path[0] == '/'
}

/// Whether a path is absolute.
pub fn is_absolute(path: &str) -> (r: bool)
    ensures
        r == absolute(path@),
{
    let v: Vec<char> = chars_of(path);
    v.len() > 0 && v[0] == '/'
}

/// `path` seen from `base`: itself where it is absolute, else below `base`.
pub open spec fn joined(base: Seq<char>, path: Seq<char>) -> Seq<char> {
    if absolute(path) {
        path
    } else if base.len() == 0 || base.last() == '/' {
        base + path
    } else {
        base + seq!['/'] + path
    }
}

/// `path` seen from `base`.
pub fn join_path(base: &str, path: &str) -> (s: String)
    ensures
        s@ == joined(base@, path@),
{
    if is_absolute(path) {
        return String::from_str(path);
    }
    let b: Vec<char> = chars_of(base);
    let mut s: String = String::from_str(base);
    if b.len() > 0 && b[b.len() - 1] != '/' {
        s.push('/');
        assert(s@ =~= base@ + seq!['/']);
    }
    s.append(path);
    s
}

/// The data directory: the setting, below the server's data directory where
/// it is not absolute.
pub fn resolve_data_directory(setting: &str, pgdata: Option<String>) -> (s: String)
    ensures
        s@ == joined(
            match pgdata {
                Some(d) => d@,
                None => DEFAULT_PGDATA@,
            },
            setting@,
        ),
{
    let base: String = match pgdata {
        Some(d) => d,
        None => String::from_str(DEFAULT_PGDATA),
    };
    join_path(base.as_str(), setting)
}

/// The parts of a path between slashes.
pub open spec fn split_path(path: Seq<char>) -> Seq<Seq<char>>
    decreases path.len(),
{
    if path.len() == 0 {
        seq![seq![]]
    } else {
        let before = split_path(path.drop_last());
        if path.last() == '/' {
            before.push(seq![])
        } else {
            before.drop_last().push(before.last().push(path.last()))
        }
    }
}

/// The parts that count: not the empty ones, nor `.`, except where a relative
/// path begins with it.
pub open spec fn counting(parts: Seq<Seq<char>>) -> Seq<Seq<char>>
    decreases parts.len(),
{
    if parts.len() == 0 {
        seq![]
    } else {
        let before = counting(parts.drop_last());
        let p = parts.last();
        if p.len() == 0 || (p == seq!['.'] && parts.len() > 1) {
            before
        } else {
            before.push(p)
        }
    }
}

/// The components of a path.
pub open spec fn components(path: Seq<char>) -> Seq<Seq<char>> {
    counting(split_path(path))
}

/// Whether `path` is `dir` or lies below it: the components of `dir` are the
/// first of `path`, and both begin at the root or neither does. Every path
/// lies below the empty one.
pub open spec fn under(path: Seq<char>, dir: Seq<char>) -> bool {
    components(dir).is_prefix_of(components(path)) && (dir.len() > 0 ==> absolute(path)
        == absolute(dir))
}

/// What the strings of a list hold.
pub open spec fn texts(v: Seq<String>) -> Seq<Seq<char>> {
    Seq::new(v.len(), |i: int| v[i]@)
}

/// The components of a path.
fn components_of(path: &str) -> (parts: Vec<String>)
    ensures
        texts(parts@) == components(path@),
{
    let v: Vec<char> = chars_of(path);
    let mut raw: Vec<String> = Vec::new();
    let mut current: String = String::new();
    let mut i: usize = 0;
    assert(split_path(v@.take(0)) =~= texts(raw@).push(current@));
    while i < v.len()
        invariant
            i <= v@.len(),
            split_path(v@.take(i as int)) == texts(raw@).push(current@),
        decreases v@.len() - i,
    {
        let ghost before = texts(raw@);
        let ghost whole = split_path(v@.take(i as int));
        proof {
            let t = v@.take(i + 1);
            assert(t.drop_last() =~= v@.take(i as int));
            assert(t.last() == v@[i as int]);
            assert(whole.drop_last() =~= before);
        }
        if v[i] == '/' {
            raw.push(current);
            current = String::new();
            assert(texts(raw@) =~= whole);
            assert(current@ =~= seq![]);
        } else {
            current.push(v[i]);
        }
        i = i + 1;
    }
    assert(v@.take(i as int) =~= v@);
    let ghost before = texts(raw@);
    raw.push(current);
    assert(texts(raw@) =~= before.push(current@));
    let ghost all = texts(raw@);
    let mut parts: Vec<String> = Vec::new();
    let mut k: usize = 0;
    assert(texts(parts@) =~= counting(all.take(0)));
    while k < raw.len()
        invariant
            k <= raw@.len(),
            all == texts(raw@),
            texts(parts@) == counting(all.take(k as int)),
        decreases raw@.len() - k,
    {
        let ghost old_parts = texts(parts@);
        proof {
            let t = all.take(k + 1);
            assert(t.drop_last() =~= all.take(k as int));
            assert(t.last() == raw@[k as int]@);
            reveal_strlit(".");
            assert("."@ =~= seq!['.']);
        }
        let p: &String = &raw[k];
        if !p.as_str().is_empty() && !(k > 0 && same_text(p.as_str(), ".")) {
            parts.push(p.clone());
            assert(texts(parts@) =~= old_parts.push(p@));
        }
        k = k + 1;
    }
    assert(all.take(k as int) =~= all);
    parts
}

/// Whether `path` is `dir` or lies below it.
pub fn is_under(path: &str, dir: &str) -> (r: bool)
    ensures
        r == under(path@, dir@),
{
    let p: Vec<String> = components_of(path);
    let d: Vec<String> = components_of(dir);
    if !dir.is_empty() && is_absolute(path) != is_absolute(dir) {
        return false;
    }
    let ghost pv = texts(p@);
    let ghost dv = texts(d@);
    if d.len() > p.len() {
        return false;
    }
    let mut i: usize = 0;
    while i < d.len()
        invariant
            i <= d@.len() <= p@.len(),
            pv == texts(p@),
            dv == texts(d@),
            pv == components(path@),
            dv == components(dir@),
            dir@.len() > 0 ==> absolute(path@) == absolute(dir@),
            forall|k: int| 0 <= k < i ==> pv[k] == dv[k],
        decreases d@.len() - i,
    {
        if !same_text(p[i].as_str(), d[i].as_str()) {
            assert(pv.subrange(0, dv.len() as int)[i as int] != dv[i as int]);
            return false;
        }
        i = i + 1;
    }
    assert(pv.subrange(0, dv.len() as int) =~= dv);
    true
}

/// Where a source is looked for.
#[derive(Debug)]
pub enum SourceKind {
    /// On this machine.
    Local,
    /// It cannot be had, for this reason.
    Refused(PgInferError),
}

/// Whether a text holds a slash.
pub open spec fn has_slash(s: Seq<char>) -> bool {
    exists|i: int| 0 <= i < s.len() && #[trigger] s[i] == '/'
}

/// What is said where downloads are off.
pub open spec fn download_off_text() -> Seq<char> {
    "infer.auto_download is off — cannot fetch from HuggingFace"@
}

/// Whether a source is not on this machine.
pub open spec fn has_to_be_fetched(source: Seq<char>, exists_here: bool) -> bool {
    "hf://"@.is_prefix_of(source) || (has_slash(source) && !exists_here)
}

/// Decides where a source is looked for. A `hf://` URI, and anything with a
/// slash that is no path here, would have to be downloaded.
pub fn classify_source(source: &str, exists_here: bool, auto_download: bool) -> (k: SourceKind)
    ensures
        ({
            let hub = "hf://"@.is_prefix_of(source@);
            if hub || (has_slash(source@) && !exists_here) {
                k matches SourceKind::Refused(PgInferError::Internal(m)) && m@ == (
                if !auto_download {
                    download_off_text()
                } else if hub {
                    "HuggingFace vindex download not yet implemented"@
                } else {
                    "HuggingFace model download + extraction not yet implemented"@
                })
            } else {
                k is Local
            }
        }),
        k is Refused <==> has_to_be_fetched(source@, exists_here),
{
    let hub: bool = starts_with(source, "hf://");
    let mut slash: bool = false;
    let v: Vec<char> = chars_of(source);
    let mut i: usize = 0;
    while i < v.len()
        invariant
            i <= v@.len(),
            slash == exists|k: int| 0 <= k < i && #[trigger] v@[k] == '/',
        decreases v@.len() - i,
    {
        if v[i] == '/' {
            assert(v@[i as int] == '/');
            slash = true;
        }
        i = i + 1;
    }
    if hub || (slash && !exists_here) {
        if !auto_download {
            return SourceKind::Refused(
                PgInferError::Internal(
                    String::from_str("infer.auto_download is off — cannot fetch from HuggingFace"),
                ),
            );
        }
        if hub {
            return SourceKind::Refused(
                PgInferError::Internal(
                    String::from_str("HuggingFace vindex download not yet implemented"),
                ),
            );
        }
        return SourceKind::Refused(
            PgInferError::Internal(
                String::from_str("HuggingFace model download + extraction not yet implemented"),
            ),
        );
    }
    SourceKind::Local
}

/// Lets a path through that lies under the data directory, and no other.
pub fn admit_path(path: String, data_dir: &str) -> (r: Result<String, PgInferError>)
    ensures
        match r {
            Ok(p) => under(path@, data_dir@) && p@ == path@,
            Err(e) => !under(path@, data_dir@) && (e matches PgInferError::PathNotPermitted {
                path: p,
                allowed,
            } && p@ == path@ && allowed@ == data_dir@),
        },
{
    if is_under(path.as_str(), data_dir) {
        Ok(path)
    } else {
        Err(PgInferError::PathNotPermitted { path, allowed: String::from_str(data_dir) })
    }
}

/// Doubling leaves all other characters as they are, and where they are: what
/// is made of two texts together is what is made of each.
pub proof fn doubled_of_both(a: Seq<char>, b: Seq<char>, c: char)
    ensures
        doubled(a + b, c) == doubled(a, c) + doubled(b, c),
    decreases b.len(),
{
    if b.len() == 0 {
        assert(a + b =~= a);
        assert(doubled(a, c) + doubled(b, c) =~= doubled(a, c));
    } else {
        doubled_of_both(a, b.drop_last(), c);
        assert((a + b).drop_last() =~= a + b.drop_last());
        assert((a + b).last() == b.last());
        assert(doubled(a + b, c) =~= doubled(a, c) + doubled(b, c));
    }
}

/// A single character is doubled where it is the one in question, and else
/// stays single.
pub proof fn doubled_of_one(x: char, c: char)
    ensures
        doubled(seq![x], c) == (if x == c {
            seq![x, x]
        } else {
            seq![x]
        }),
{
    assert(seq![x].drop_last() =~= Seq::<char>::empty());
    assert(doubled(seq![x].drop_last(), c) =~= Seq::<char>::empty());
    assert(doubled(seq![x], c) =~= (if x == c {
        seq![x, x]
    } else {
        seq![x]
    }));
}

/// A statement names the model and nothing else: between its quotes stands the
/// name, with its own quotes doubled, so that it is found again.
pub proof fn statements_name_the_model(model_name: Seq<char>, vindex_path: Seq<char>)
    ensures
        ({
            let s = drop_index_text(model_name);
            let n = doubled(model_name, '"').len() as int;
            &&& s.len() == 28 + n + 1
            &&& s[27] == '"' && s[28 + n] == '"'
            &&& undoubled(s.subrange(28, 28 + n), '"') == Some(model_name)
        }),
        ({
            let s = create_index_text(model_name, vindex_path);
            let n = doubled(model_name, '"').len() as int;
            let m = doubled(vindex_path, '\'').len() as int;
            &&& s.len() == 14 + n + 54 + m + 2
            &&& s[13] == '"' && s[14 + n] == '"' && s[67 + n] == '\'' && s[68 + n + m] == '\''
            &&& undoubled(s.subrange(14, 14 + n), '"') == Some(model_name)
            &&& undoubled(s.subrange(68 + n, 68 + n + m), '\'') == Some(vindex_path)
        }),
{
    reveal_strlit("DROP INDEX IF EXISTS infer.\"");
    reveal_strlit("\"");
    reveal_strlit("CREATE INDEX \"");
    reveal_strlit("\" ON infer._models USING infer (name) WITH (source = '");
    reveal_strlit("')");
    undoubled_of_doubled(model_name, '"');
    undoubled_of_doubled(vindex_path, '\'');
    let name = doubled(model_name, '"');
    let path = doubled(vindex_path, '\'');
    let n = name.len() as int;
    let m = path.len() as int;
    let d = drop_index_text(model_name);
    assert(d.subrange(28, 28 + n) =~= name);
    let s = create_index_text(model_name, vindex_path);
    assert(s.subrange(14, 14 + n) =~= name);
    assert(s.subrange(68 + n, 68 + n + m) =~= path);
}

/// Every index that is in no row is listed, in order; one that is in a row is
/// not listed again.
pub proof fn indexes_are_listed_one_by_one(rows: Seq<ModelRow>, a: Seq<String>, b: Seq<String>)
    ensures
        unlisted(rows, a + b) == unlisted(rows, a) + unlisted(rows, b),
    decreases b.len(),
{
    if b.len() == 0 {
        assert(a + b =~= a);
        assert(unlisted(rows, a) + unlisted(rows, b) =~= unlisted(rows, a));
    } else {
        indexes_are_listed_one_by_one(rows, a, b.drop_last());
        assert((a + b).drop_last() =~= a + b.drop_last());
        assert((a + b).last() == b.last());
        assert(unlisted(rows, a + b) =~= unlisted(rows, a) + unlisted(rows, b));
    }
}

/// A single index is listed exactly where no row has its name.
pub proof fn index_without_row_is_listed(rows: Seq<ModelRow>, name: String)
    ensures
        unlisted(rows, seq![name]) == (if forall|i: int|
            0 <= i < rows.len() ==> (#[trigger] rows[i]).model_name@ != name@ {
            seq![name@]
        } else {
            Seq::<Seq<char>>::empty()
        }),
{
    assert(seq![name].drop_last() =~= Seq::<String>::empty());
    assert(unlisted(rows, seq![name].drop_last()) =~= Seq::<Seq<char>>::empty());
    assert(unlisted(rows, seq![name]) =~= (if listed(rows, name@) {
        Seq::<Seq<char>>::empty()
    } else {
        seq![name@]
    }));
}

/// A path seen from a directory: an absolute one is itself; any other begins
/// with the directory and ends with the path, with one slash between where the
/// directory has none at its end, and is absolute where the directory is.
pub proof fn path_below_directory(base: Seq<char>, path: Seq<char>)
    ensures
        path.len() > 0 && path[0] == '/' ==> joined(base, path) == path,
        path.len() == 0 || path[0] != '/' ==> {
            let s = joined(base, path);
            &&& s.take(base.len() as int) == base
            &&& s.skip(s.len() - path.len()) == path
            &&& base.len() > 0 ==> s[s.len() - path.len() - 1] == '/'
            &&& s.len() == base.len() + path.len() + (if base.len() > 0 && base.last() != '/' {
                1int
            } else {
                0
            })
            &&& base.len() > 0 ==> absolute(s) == absolute(base)
        },
{
    if !absolute(path) {
        let s = joined(base, path);
        assert(s.take(base.len() as int) =~= base);
        assert(s.skip(s.len() - path.len()) =~= path);
        if base.len() > 0 {
            assert(s[0] == base[0]);
        }
    }
}

/// Slashes take a path apart: what stands before one and what stands behind it
/// are taken apart by themselves.
proof fn split_at_slash(a: Seq<char>, b: Seq<char>)
    ensures
        split_path(a).len() > 0,
        split_path(a + seq!['/'] + b) == split_path(a) + split_path(b),
    decreases b.len(),
{
    split_is_not_empty(a);
    split_is_not_empty(b);
    let s = a + seq!['/'] + b;
    if b.len() == 0 {
        assert(s.drop_last() =~= a);
        assert(split_path(b) =~= seq![Seq::<char>::empty()]);
        assert(split_path(s) =~= split_path(a) + split_path(b));
    } else {
        let init = b.drop_last();
        split_at_slash(a, init);
        split_is_not_empty(init);
        assert(s.drop_last() =~= a + seq!['/'] + init);
        assert(s.last() == b.last());
        let before = split_path(s.drop_last());
        assert(before == split_path(a) + split_path(init));
        assert(before.last() == split_path(init).last());
        assert(split_path(s) =~= split_path(a) + split_path(b));
    }
}

/// A path has a part, be it an empty one.
proof fn split_is_not_empty(a: Seq<char>)
    ensures
        split_path(a).len() > 0,
    decreases a.len(),
{
    if a.len() > 0 {
        split_is_not_empty(a.drop_last());
    }
}

/// A text without a slash is one part.
proof fn split_of_name(name: Seq<char>)
    requires
        !has_slash(name),
    ensures
        split_path(name) == seq![name],
    decreases name.len(),
{
    if name.len() > 0 {
        let init = name.drop_last();
        assert forall|i: int| 0 <= i < init.len() implies #[trigger] init[i] != '/' by {
            assert(name[i] == init[i]);
        }
        split_of_name(init);
        assert(name[name.len() - 1] == name.last());
        assert(init.push(name.last()) =~= name);
        assert(split_path(name) =~= seq![name]);
    } else {
        assert(name =~= Seq::<char>::empty());
    }
}

/// One step further down a path is one component more, that of the step; an
/// empty step, or one to the same place, adds nothing.
pub proof fn step_down_adds_component(path: Seq<char>, name: Seq<char>)
    requires
        forall|i: int| 0 <= i < name.len() ==> #[trigger] name[i] != '/',
    ensures
        components(path + seq!['/'] + name) == (if name.len() == 0 || name == seq!['.'] {
            components(path)
        } else {
            components(path).push(name)
        }),
{
    split_at_slash(path, name);
    split_of_name(name);
    let parts = split_path(path + seq!['/'] + name);
    assert(parts.drop_last() =~= split_path(path));
    assert(parts.last() == name);
}

/// A path without a slash is its only component, unless it is empty.
pub proof fn name_is_its_component(name: Seq<char>)
    requires
        forall|i: int| 0 <= i < name.len() ==> #[trigger] name[i] != '/',
    ensures
        components(name) == (if name.len() == 0 {
            Seq::<Seq<char>>::empty()
        } else {
            seq![name]
        }),
{
    split_of_name(name);
    assert(seq![name].drop_last() =~= Seq::<Seq<char>>::empty());
    assert(counting(seq![name].drop_last()) =~= Seq::<Seq<char>>::empty());
    assert(components(name) =~= (if name.len() == 0 {
        Seq::<Seq<char>>::empty()
    } else {
        seq![name]
    }));
}

/// A path lies below itself and below the directory that it is a step down
/// from; what lies below something that lies below a directory lies below
/// that directory.
pub proof fn below_is_below(path: Seq<char>, mid: Seq<char>, dir: Seq<char>, name: Seq<char>)
    requires
        forall|i: int| 0 <= i < name.len() ==> #[trigger] name[i] != '/',
    ensures
        under(path, path),
        dir.len() > 0 ==> under(dir + seq!['/'] + name, dir),
        under(path, mid) && under(mid, dir) && mid.len() > 0 ==> under(path, dir),
{
    let c = components(path);
    assert(c.subrange(0, c.len() as int) =~= c);
    if dir.len() > 0 {
        step_down_adds_component(dir, name);
        let d = components(dir);
        let e = components(dir + seq!['/'] + name);
        assert(e.subrange(0, d.len() as int) =~= d);
        assert((dir + seq!['/'] + name)[0] == dir[0]);
    }
    if under(path, mid) && under(mid, dir) && mid.len() > 0 {
        let m = components(mid);
        let d = components(dir);
        assert(c.subrange(0, d.len() as int) =~= c.subrange(0, m.len() as int).subrange(
            0,
            d.len() as int,
        ));
    }
}

/// What lies beside a directory does not lie below it, even where its name
/// begins as that of the directory does.
pub proof fn beside_is_not_below(dir: Seq<char>, a: Seq<char>, b: Seq<char>, rest: Seq<char>)
    requires
        a != b,
        a.len() > 0 && a != seq!['.'],
        b.len() > 0 && b != seq!['.'],
        forall|i: int| 0 <= i < a.len() ==> #[trigger] a[i] != '/',
        forall|i: int| 0 <= i < b.len() ==> #[trigger] b[i] != '/',
        forall|i: int| 0 <= i < rest.len() ==> #[trigger] rest[i] != '/',
    ensures
        !under(dir + seq!['/'] + a, dir + seq!['/'] + b),
        !under(dir + seq!['/'] + a + seq!['/'] + rest, dir + seq!['/'] + b),
{
    step_down_adds_component(dir, a);
    step_down_adds_component(dir, b);
    let n = components(dir).len() as int;
    let p = dir + seq!['/'] + a;
    let d = dir + seq!['/'] + b;
    step_down_adds_component(p, rest);
    let cp = components(p);
    let cd = components(d);
    let cr = components(p + seq!['/'] + rest);
    assert(cp[n] == a && cd[n] == b);
    assert(cr[n] == a);
    assert(cp.subrange(0, n + 1)[n] == a);
    assert(cr.subrange(0, n + 1)[n] == a);
}

/// A path that begins at the root and one that does not never lie below one
/// another, unless one is empty.
pub proof fn root_is_not_below(path: Seq<char>, dir: Seq<char>)
    requires
        dir.len() > 0,
        path.len() > 0,
        (path[0] == '/') != (dir[0] == '/'),
    ensures
        !under(path, dir),
{
}

/// A number below zero is written as its opposite behind a minus sign, and any
/// other one as it is.
pub proof fn signed_numbers_are_written(n: i32)
    ensures
        n < 0 ==> signed_decimal(n)[0] == '-' && digits_value(signed_decimal(n).skip(1)) == -n
            && all_digits(signed_decimal(n).skip(1)),
        n >= 0 ==> digits_value(signed_decimal(n)) == n && all_digits(signed_decimal(n)),
{
    if n < 0 {
        decimal_says_the_number((-n) as nat);
        assert(signed_decimal(n).skip(1) =~= decimal((-n) as nat));
    } else {
        decimal_says_the_number(n as nat);
    }
}

/// An index without a row tells nothing but its name: no dimensions, no
/// source, no time, and the least level.
pub proof fn index_only_rows_tell_the_name(row: ModelRow, name: Seq<char>)
    requires
        is_index_only(row, name),
    ensures
        row.model_name@ == name,
        row.num_layers is None && row.hidden_size is None && row.vocab_size is None,
        row.source@.len() == 0 && row.registered_at == 0,
        row.extract_level@ == seq!['b', 'r', 'o', 'w', 's', 'e'],
{
    reveal_strlit("browse");
    assert("browse"@ =~= seq!['b', 'r', 'o', 'w', 's', 'e']);
}

/// What is said of a model that was registered names it, then its layers, then
/// its hidden size, then its level.
pub proof fn registered_model_is_named(
    model_name: Seq<char>,
    num_layers: i32,
    hidden_size: i32,
    level: Seq<char>,
)
    ensures
        ({
            let t = registered_text(model_name, num_layers, hidden_size, level);
            let a: int = 7 + model_name.len() as int + 14;
            let b = a + signed_decimal(num_layers).len() + 16;
            let c = b + signed_decimal(hidden_size).len() + 8;
            &&& t.subrange(7, 7 + model_name.len() as int) == model_name
            &&& t.subrange(a, a + signed_decimal(num_layers).len()) == signed_decimal(
                num_layers,
            )
            &&& t.subrange(b, b + signed_decimal(hidden_size).len()) == signed_decimal(
                hidden_size,
            )
            &&& t.subrange(c, c + level.len()) == level
            &&& t.len() == c + level.len() + 1
        }),
{
    reveal_strlit("model '");
    reveal_strlit("' registered (");
    reveal_strlit(" layers, hidden=");
    reveal_strlit(", level=");
    reveal_strlit(")");
    let t = registered_text(model_name, num_layers, hidden_size, level);
    let a: int = 7 + model_name.len() as int + 14;
    let b = a + signed_decimal(num_layers).len() + 16;
    let c = b + signed_decimal(hidden_size).len() + 8;
    assert(t.subrange(7, 7 + model_name.len() as int) =~= model_name);
    assert(t.subrange(a, a + signed_decimal(num_layers).len()) =~= signed_decimal(
        num_layers,
    ));
    assert(t.subrange(b, b + signed_decimal(hidden_size).len()) =~= signed_decimal(
        hidden_size,
    ));
    assert(t.subrange(c, c + level.len()) =~= level);
}

/// What has to be fetched: a URI of the hub even where something of that name
/// is here, and a text with a slash that is no path here; a plain name never.
pub proof fn which_sources_have_to_be_fetched(source: Seq<char>, rest: Seq<char>, exists_here: bool)
    ensures
        has_to_be_fetched(seq!['h', 'f', ':', '/', '/'] + rest, exists_here),
        (forall|i: int| 0 <= i < source.len() ==> #[trigger] source[i] != '/')
            ==> !has_to_be_fetched(source, exists_here),
        (exists|i: int| 0 <= i < source.len() && #[trigger] source[i] == '/')
            ==> has_to_be_fetched(source, false),
        has_to_be_fetched(source, true) ==> source.len() >= 5 && source.take(5) == seq![
            'h',
            'f',
            ':',
            '/',
            '/',
        ],
{
    reveal_strlit("hf://");
    assert("hf://"@ =~= seq!['h', 'f', ':', '/', '/']);
    let s = seq!['h', 'f', ':', '/', '/'] + rest;
    assert(s.subrange(0, 5) =~= "hf://"@);
    if "hf://"@.is_prefix_of(source) {
        assert(source.take(5) =~= "hf://"@);
        assert(source.take(5)[3] == '/' && source[3] == source.take(5)[3]);
    }
}

} // verus!
