//! Reading and changing the settings file by dotted key paths, as `nova config` does.
use vstd::prelude::*;
use crate::ext::{parse_document, render_document, toml_document, toml_pretty};
use crate::text::{i64_text, signed_decimal, chars_equal, chars_of, chars_range, find_char_from, first_index, lemma_first_index_bound, parse_i64, parse_i64_chars, string_of_chars};

verus! {

/// A value of the settings file. Floats are held by their shortest decimal text (the
/// text that reads back as the same float), dates by their text.
#[derive(Debug, PartialEq)]
pub enum ConfigValue {
    Text(String),
    Integer(i64),
    Float(String),
    Boolean(bool),
    Date(String),
    Array(Vec<ConfigValue>),
    Table(Vec<(String, ConfigValue)>),
}


pub ghost enum ValueView {
    Text(Seq<char>),
    Integer(i64),
    Float(Seq<char>),
    Boolean(bool),
    Date(Seq<char>),
    Array(Seq<ValueView>),
    Table(Seq<(Seq<char>, ValueView)>),
}

/// The abstract value of a settings value.
pub open spec fn value_view(v: ConfigValue) -> ValueView
    decreases v,
{
    match v {
        ConfigValue::Text(s) => ValueView::Text(s@),
        ConfigValue::Integer(n) => ValueView::Integer(n),
        ConfigValue::Float(t) => ValueView::Float(t@),
        ConfigValue::Boolean(b) => ValueView::Boolean(b),
        ConfigValue::Date(d) => ValueView::Date(d@),
        ConfigValue::Array(a) => ValueView::Array(items_view(a@)),
        ConfigValue::Table(t) => ValueView::Table(entries_view(t@)),
    }
}

pub open spec fn items_view(s: Seq<ConfigValue>) -> Seq<ValueView>
    decreases s,
{
    if s.len() == 0 {
        Seq::empty()
    } else {
        items_view(s.subrange(0, s.len() - 1)).push(value_view(s[s.len() - 1]))
    }
}

pub open spec fn entries_view(s: Seq<(String, ConfigValue)>) -> Seq<(Seq<char>, ValueView)>
    decreases s,
{
    if s.len() == 0 {
        Seq::empty()
    } else {
        entries_view(s.subrange(0, s.len() - 1)).push((s[s.len() - 1].0@, value_view(s[s.len() - 1].1)))
    }
}

proof fn lemma_entries_view(s: Seq<(String, ConfigValue)>)
    ensures
        entries_view(s).len() == s.len(),
        forall|k: int| 0 <= k < s.len() ==> #[trigger] entries_view(s)[k] == (s[k].0@, value_view(s[k].1)),
    decreases s.len(),
{
    if s.len() > 0 {
        let init = s.subrange(0, s.len() - 1);
        lemma_entries_view(init);
        assert forall|k: int| 0 <= k < s.len() implies #[trigger] entries_view(s)[k] == (s[k].0@, value_view(s[k].1)) by {
            if k < s.len() - 1 {
                assert(init[k] == s[k]);
            }
        }
    }
}

/// The value stored under `name` in a table: its first entry of that name.
pub open spec fn table_get(t: Seq<(Seq<char>, ValueView)>, name: Seq<char>) -> Option<ValueView>
    decreases t.len(),
{
    if t.len() == 0 {
        None
    } else if t[0].0 == name {
        Some(t[0].1)
    } else {
        table_get(t.drop_first(), name)
    }
}

/// A table with `name` set to `v`: its first entry of that name replaced, or a new
/// entry at the end where there is none.
pub open spec fn table_set(t: Seq<(Seq<char>, ValueView)>, name: Seq<char>, v: ValueView) -> Seq<(Seq<char>, ValueView)>
    decreases t.len(),
{
    if t.len() == 0 {
        seq![(name, v)]
    } else if t[0].0 == name {
        t.update(0, (name, v))
    } else {
        seq![t[0]] + table_set(t.drop_first(), name, v)
    }
}

/// The child of a value under `name`; only tables have children.
pub open spec fn child_of(v: ValueView, name: Seq<char>) -> Option<ValueView> {
    match v {
        ValueView::Table(t) => table_get(t, name),
        _ => None,
    }
}

/// The value at a dotted key path: the part before the first `.` names a child, and the
/// rest of the path is looked up in that child.
pub open spec fn lookup_path(v: ValueView, key: Seq<char>) -> Option<ValueView>
    decreases key.len(),
{
    match first_index(key, '.') {
        Some(i) => {
            proof {
                lemma_first_index_bound(key, '.');
            }
            match child_of(v, key.take(i as int)) {
                Some(c) => lookup_path(c, key.skip(i + 1int)),
                None => None,
            }
        },
        None => child_of(v, key),
    }
}

/// The value after setting the dotted key path to `nv`, or `None` where the path does not
/// lead through tables (then nothing is changed). The last part of the path may be new.
pub open spec fn set_path(v: ValueView, key: Seq<char>, nv: ValueView) -> Option<ValueView>
    decreases key.len(),
{
    match v {
        ValueView::Table(t) => match first_index(key, '.') {
            Some(i) => {
                proof {
                    lemma_first_index_bound(key, '.');
                }
                match table_get(t, key.take(i as int)) {
                    Some(c) => match set_path(c, key.skip(i + 1int), nv) {
                        Some(c2) => Some(ValueView::Table(table_set(t, key.take(i as int), c2))),
                        None => None,
                    },
                    None => None,
                }
            },
            None => Some(ValueView::Table(table_set(t, key, nv))),
        },
        _ => None,
    }
}

proof fn lemma_table_get_found(t: Seq<(Seq<char>, ValueView)>, name: Seq<char>, j: int)
    requires
        0 <= j < t.len(),
        t[j].0 == name,
        forall|k: int| 0 <= k < j ==> t[k].0 != name,
    ensures
        table_get(t, name) == Some(t[j].1),
        table_set(t, name, t[j].1) == t,
        forall|v: ValueView| table_set(t, name, v) == #[trigger] t.update(j, (name, v)),
    decreases j,
{
    if j > 0 {
        lemma_table_get_found(t.drop_first(), name, j - 1);
        assert forall|v: ValueView| table_set(t, name, v) == #[trigger] t.update(j, (name, v)) by {
            assert(table_set(t.drop_first(), name, v) == t.drop_first().update(j - 1, (name, v)));
            assert(seq![t[0]] + t.drop_first().update(j - 1, (name, v)) =~= t.update(j, (name, v)));
        }
        assert(table_set(t.drop_first(), name, t[j].1) == t.drop_first());
        assert(seq![t[0]] + t.drop_first() =~= t);
    } else {
        assert(t.update(0, (name, t[0].1)) =~= t);
    }
}

proof fn lemma_table_get_absent(t: Seq<(Seq<char>, ValueView)>, name: Seq<char>)
    requires
        forall|k: int| 0 <= k < t.len() ==> t[k].0 != name,
    ensures
        table_get(t, name) is None,
        forall|v: ValueView| table_set(t, name, v) == #[trigger] t.push((name, v)),
    decreases t.len(),
{
    if t.len() > 0 {
        lemma_table_get_absent(t.drop_first(), name);
        assert forall|v: ValueView| table_set(t, name, v) == #[trigger] t.push((name, v)) by {
            assert(seq![t[0]] + t.drop_first().push((name, v)) =~= t.push((name, v)));
        }
    } else {
        assert forall|v: ValueView| table_set(t, name, v) == #[trigger] t.push((name, v)) by {
            assert(seq![(name, v)] =~= t.push((name, v)));
        }
    }
}

/// The position of the first entry named `name`.
fn find_entry(t: &Vec<(String, ConfigValue)>, name: &Vec<char>) -> (r: Option<usize>)
    ensures
        match r {
            Some(j) => j < t@.len() && t@[j as int].0@ == name@ && forall|k: int| 0 <= k < j ==> t@[k].0@ != name@,
            None => forall|k: int| 0 <= k < t@.len() ==> t@[k].0@ != name@,
        },
{
    let mut j: usize = 0;
    while j < t.len()
        invariant
            j <= t@.len(),
            forall|k: int| 0 <= k < j ==> t@[k].0@ != name@,
        decreases t@.len() - j,
    {
        let entry_name = chars_of(t[j].0.as_str());
        if chars_equal(entry_name.as_slice(), name.as_slice()) {
            return Some(j);
        }
        j = j + 1;
    }
    None
}

proof fn lemma_find_in_view(t: Seq<(String, ConfigValue)>, name: Seq<char>, r: Option<usize>)
    requires
        match r {
            Some(j) => j < t.len() && t[j as int].0@ == name && forall|k: int| 0 <= k < j ==> t[k].0@ != name,
            None => forall|k: int| 0 <= k < t.len() ==> t[k].0@ != name,
        },
    ensures
        entries_view(t).len() == t.len(),
        match r {
            Some(j) => table_get(entries_view(t), name) == Some(value_view(t[j as int].1))
                && forall|v: ValueView| #[trigger] table_set(entries_view(t), name, v) == entries_view(t).update(j as int, (name, v)),
            None => table_get(entries_view(t), name) is None
                && forall|v: ValueView| #[trigger] table_set(entries_view(t), name, v) == entries_view(t).push((name, v)),
        },
{
    lemma_entries_view(t);
    let e = entries_view(t);
    match r {
        Some(j) => {
            assert forall|k: int| 0 <= k < j implies e[k].0 != name by {
                assert(e[k] == (t[k].0@, value_view(t[k].1)));
            }
            assert(e[j as int] == (t[j as int].0@, value_view(t[j as int].1)));
            lemma_table_get_found(e, name, j as int);
            assert forall|v: ValueView| #[trigger] table_set(e, name, v) == e.update(j as int, (name, v)) by {
                assert(table_set(e, name, v) == e.update(j as int, (name, v)));
            }
        },
        None => {
            assert forall|k: int| 0 <= k < e.len() implies e[k].0 != name by {
                assert(e[k] == (t[k].0@, value_view(t[k].1)));
            }
            lemma_table_get_absent(e, name);
        },
    }
}

fn get_from<'a>(val: &'a ConfigValue, key: &Vec<char>, from: usize) -> (r: Option<&'a ConfigValue>)
    requires
        from <= key@.len(),
    ensures
        match r {
            Some(x) => lookup_path(value_view(*val), key@.skip(from as int)) == Some(value_view(*x)),
            None => lookup_path(value_view(*val), key@.skip(from as int)) is None,
        },
    decreases key@.len() - from,
{
    let ghost k = key@.skip(from as int);
    let dot = find_char_from(key.as_slice(), from, '.');
    let end = match dot {
        Some(i) => i,
        None => key.len(),
    };
    assert(end <= key@.len());
    let head = chars_range(key.as_slice(), from, end);
    proof {
        lemma_first_index_bound(k, '.');
        match dot {
            Some(i) => {
                assert(head@ =~= k.take(i - from));
                assert(key@.skip(i + 1) =~= k.skip(i - from + 1));
            },
            None => {
                assert(head@ =~= k);
            },
        }
    }
    let child = match val {
        ConfigValue::Table(t) => {
            let found = find_entry(t, &head);
            proof {
                lemma_find_in_view(t@, head@, found);
            }
            match found {
                Some(j) => Some(&t[j].1),
                None => None,
            }
        },
        _ => None,
    };
    assert(match child {
        Some(c) => child_of(value_view(*val), head@) == Some(value_view(*c)),
        None => child_of(value_view(*val), head@) is None,
    });
    match child {
        None => None,
        Some(c) => match dot {
            Some(i) => {
                assert(i < key@.len());
                assert(key@.len() == key.len());
                get_from(c, key, i + 1)
            },
            None => Some(c),
        },
    }
}

/// The value at a dotted key path (`general.editor`, `theme.font.size`).
pub fn get_nested<'a>(val: &'a ConfigValue, key: &str) -> (r: Option<&'a ConfigValue>)
    ensures
        match r {
            Some(x) => lookup_path(value_view(*val), key@) == Some(value_view(*x)),
            None => lookup_path(value_view(*val), key@) is None,
        },
{
    let chars = chars_of(key);
    assert(chars@.skip(0) =~= key@);
    get_from(val, &chars, 0)
}


fn set_from(val: &mut ConfigValue, key: &Vec<char>, from: usize, new_val: ConfigValue) -> (ok: bool)
    requires
        from <= key@.len(),
    ensures
        match set_path(value_view(*old(val)), key@.skip(from as int), value_view(new_val)) {
            Some(w) => ok && value_view(*final(val)) == w,
            None => !ok && value_view(*final(val)) == value_view(*old(val)),
        },
    decreases key@.len() - from,
{
    let ghost k = key@.skip(from as int);
    let ghost nv = value_view(new_val);
    let mut cur = ConfigValue::Boolean(false);
    std::mem::swap(&mut cur, val);
    match cur {
        ConfigValue::Table(mut t) => {
            let ghost t0 = t@;
            let ghost e0 = entries_view(t0);
            assert(key@.len() == key.len());
            let dot = find_char_from(key.as_slice(), from, '.');
            let end = match dot {
                Some(i) => i,
                None => key.len(),
            };
            let head = chars_range(key.as_slice(), from, end);
            proof {
                lemma_first_index_bound(k, '.');
                match dot {
                    Some(i) => {
                        assert(head@ =~= k.take(i - from));
                        assert(key@.skip(i + 1) =~= k.skip(i - from + 1));
                    },
                    None => {
                        assert(head@ =~= k);
                    },
                }
            }
            let found = find_entry(&t, &head);
            proof {
                lemma_find_in_view(t0, head@, found);
            }
            match dot {
                Some(i) => {
                    match found {
                        Some(j) => {
                            let (name, mut child) = t.remove(j);
                            let ghost c0 = value_view(child);
                            assert(c0 == value_view(t0[j as int].1));
                            let ok = set_from(&mut child, key, i + 1, new_val);
                            t.insert(j, (name, child));
                            proof {
                                assert(t@ =~= t0.update(j as int, (name, child)));
                                lemma_entries_view(t@);
                                lemma_entries_view(t0);
                                if ok {
                                    assert(entries_view(t@) =~= e0.update(j as int, (head@, value_view(child))));
                                } else {
                                    assert(entries_view(t@) =~= e0);
                                }
                            }
                            *val = ConfigValue::Table(t);
                            ok
                        },
                        None => {
                            *val = ConfigValue::Table(t);
                            false
                        },
                    }
                },
                None => {
                    match found {
                        Some(j) => {
                            let (name, _) = t.remove(j);
                            t.insert(j, (name, new_val));
                            proof {
                                assert(t@ =~= t0.update(j as int, (name, new_val)));
                                lemma_entries_view(t@);
                                lemma_entries_view(t0);
                                assert(entries_view(t@) =~= e0.update(j as int, (head@, nv)));
                            }
                        },
                        None => {
                            let n = string_of_chars(key.as_slice(), from, key.len());
                            assert(n@ =~= head@);
                            t.push((n, new_val));
                            proof {
                                assert(t@.subrange(0, t@.len() - 1) =~= t0);
                            }
                        },
                    }
                    *val = ConfigValue::Table(t);
                    true
                },
            }
        },
        other => {
            *val = other;
            false
        },
    }
}

/// Set the value at a dotted key path. Every part of the path but the last must name an
/// existing table; the last part is replaced or added. Returns `false`, changing nothing,
/// where the path does not lead through tables.
pub fn set_nested(val: &mut ConfigValue, key: &str, new_val: ConfigValue) -> (ok: bool)
    ensures
        match set_path(value_view(*old(val)), key@, value_view(new_val)) {
            Some(w) => ok && value_view(*final(val)) == w,
            None => !ok && value_view(*final(val)) == value_view(*old(val)),
        },
{
    let chars = chars_of(key);
    assert(chars@.skip(0) =~= key@);
    set_from(val, &chars, 0, new_val)
}

proof fn lemma_table_set_get(t: Seq<(Seq<char>, ValueView)>, name: Seq<char>, v: ValueView)
    ensures
        table_get(table_set(t, name, v), name) == Some(v),
    decreases t.len(),
{
    if t.len() > 0 && t[0].0 != name {
        lemma_table_set_get(t.drop_first(), name, v);
        assert((seq![t[0]] + table_set(t.drop_first(), name, v)).drop_first() =~= table_set(t.drop_first(), name, v));
    }
}

/// What a successful set at a key path writes is what a later read at that path gives back.
pub proof fn law_set_then_get(v: ValueView, key: Seq<char>, nv: ValueView)
    requires
        set_path(v, key, nv) is Some,
    ensures
        lookup_path(set_path(v, key, nv).unwrap(), key) == Some(nv),
    decreases key.len(),
{
    lemma_first_index_bound(key, '.');
    match v {
        ValueView::Table(t) => match first_index(key, '.') {
            Some(i) => {
                let head = key.take(i as int);
                let c = table_get(t, head).unwrap();
                let c2 = set_path(c, key.skip(i + 1int), nv).unwrap();
                law_set_then_get(c, key.skip(i + 1int), nv);
                lemma_table_set_get(t, head, c2);
            },
            None => {
                lemma_table_set_get(t, key, nv);
            },
        },
        _ => {},
    }
}


/// Why `nova config set` refused a change.
#[derive(PartialEq, Eq, Structural, Debug, Clone, Copy)]
pub enum SetError {
    KeyNotFound,
    ExpectedBoolean,
    ExpectedInteger,
    ExpectedFloat,
    CannotSet,
}

pub open spec fn true_word() -> Seq<char> {
    seq!['t', 'r', 'u', 'e']
}

pub open spec fn false_word() -> Seq<char> {
    seq!['f', 'a', 'l', 's', 'e']
}

pub open spec fn opt_value_view(o: Option<&ConfigValue>) -> Option<ValueView> {
    match o {
        Some(v) => Some(value_view(*v)),
        None => None,
    }
}

/// The value that replaces `existing` when the text `raw` is given for it: a boolean
/// takes `true` or `false`, an integer a decimal `i64`, a float what `raw` reads as
/// (`float`: that float's shortest text, where `raw` reads as one), and anything else
/// the text itself.
pub open spec fn setting_value_spec(existing: Option<ValueView>, raw: Seq<char>, float: Option<Seq<char>>) -> Result<ValueView, SetError> {
    match existing {
        None => Err(SetError::KeyNotFound),
        Some(ValueView::Boolean(_)) => if raw == true_word() {
            Ok(ValueView::Boolean(true))
        } else if raw == false_word() {
            Ok(ValueView::Boolean(false))
        } else {
            Err(SetError::ExpectedBoolean)
        },
        Some(ValueView::Integer(_)) => match parse_i64(raw) {
            Some(n) => Ok(ValueView::Integer(n)),
            None => Err(SetError::ExpectedInteger),
        },
        Some(ValueView::Float(_)) => match float {
            Some(b) => Ok(ValueView::Float(b)),
            None => Err(SetError::ExpectedFloat),
        },
        Some(_) => Ok(ValueView::Text(raw)),
    }
}

/// The text of an optional string.
pub open spec fn opt_text(o: Option<String>) -> Option<Seq<char>> {
    match o {
        Some(t) => Some(t@),
        None => None,
    }
}

/// The new value for a key from the text given on the command line (see
/// [`setting_value_spec`]). `raw_float` is the shortest text of the float that `raw`
/// reads as, where it reads as one.
pub fn setting_value(existing: Option<&ConfigValue>, raw: &str, raw_float: Option<String>) -> (r: Result<ConfigValue, SetError>)
    ensures
        match setting_value_spec(opt_value_view(existing), raw@, opt_text(raw_float)) {
            Ok(v) => r is Ok && value_view(r.unwrap()) == v,
            Err(e) => r == Err::<ConfigValue, SetError>(e),
        },
{
    let chars = chars_of(raw);
    match existing {
        None => Err(SetError::KeyNotFound),
        Some(ConfigValue::Boolean(_)) => {
            let t = vec!['t', 'r', 'u', 'e'];
            let f = vec!['f', 'a', 'l', 's', 'e'];
            assert(t@ =~= true_word());
            assert(f@ =~= false_word());
            if chars_equal(chars.as_slice(), t.as_slice()) {
                Ok(ConfigValue::Boolean(true))
            } else if chars_equal(chars.as_slice(), f.as_slice()) {
                Ok(ConfigValue::Boolean(false))
            } else {
                Err(SetError::ExpectedBoolean)
            }
        },
        Some(ConfigValue::Integer(_)) => match parse_i64_chars(chars.as_slice()) {
            Some(n) => Ok(ConfigValue::Integer(n)),
            None => Err(SetError::ExpectedInteger),
        },
        Some(ConfigValue::Float(_)) => match raw_float {
            Some(b) => Ok(ConfigValue::Float(b)),
            None => Err(SetError::ExpectedFloat),
        },
        Some(_) => {
            let text = string_of_chars(chars.as_slice(), 0, chars.len());
            assert(text@ =~= raw@);
            Ok(ConfigValue::Text(text))
        },
    }
}

/// Set the key path to the value read from `raw`, as `nova config set <key> <raw>` does
/// to the settings file: the key must exist, the text must suit the value found there,
/// and the path must lead through tables. On an error the document is unchanged.
pub fn apply_setting(doc: &mut ConfigValue, key: &str, raw: &str, raw_float: Option<String>) -> (r: Result<(), SetError>)
    ensures
        match setting_value_spec(lookup_path(value_view(*old(doc)), key@), raw@, opt_text(raw_float)) {
            Err(e) => r == Err::<(), SetError>(e) && value_view(*final(doc)) == value_view(*old(doc)),
            Ok(nv) => match set_path(value_view(*old(doc)), key@, nv) {
                Some(w) => r is Ok && value_view(*final(doc)) == w,
                None => r == Err::<(), SetError>(SetError::CannotSet) && value_view(*final(doc)) == value_view(*old(doc)),
            },
        },
{
    let existing = get_nested(doc, key);
    let nv = setting_value(existing, raw, raw_float);
    match nv {
        Err(e) => Err(e),
        Ok(v) => {
            if set_nested(doc, key, v) {
                Ok(())
            } else {
                Err(SetError::CannotSet)
            }
        },
    }
}


/// Why `nova config` failed: the settings text is not a TOML document (the parser's
/// message), the key or the value given was refused, or the changed document could not
/// be written out (the writer's message).
#[derive(Debug, PartialEq)]
pub enum ConfigError {
    Parse(String),
    Value(SetError),
    Render(String),
}

/// The TOML rendering of a value, or nothing where the renderer refuses it.
pub open spec fn pretty_or_empty(v: ValueView) -> Seq<char> {
    match toml_pretty(v) {
        Ok(t) => t,
        Err(_) => Seq::empty(),
    }
}

/// How `nova config view <key>` shows a value: text as it is, booleans as `true` or
/// `false`, integers in decimal, floats by their text, and anything else rendered as
/// TOML (nothing where the renderer refuses it).
pub open spec fn shown_value(v: ValueView) -> Seq<char> {
    match v {
        ValueView::Text(t) => t,
        ValueView::Boolean(b) => if b { true_word() } else { false_word() },
        ValueView::Integer(n) => signed_decimal(n as int),
        ValueView::Float(t) => t,
        _ => pretty_or_empty(v),
    }
}

fn copy_text(t: &String) -> (s: String)
    ensures
        s@ == t@,
{
    let v = chars_of(t.as_str());
    let s = string_of_chars(v.as_slice(), 0, v.len());
    assert(s@ =~= t@);
    s
}

fn rendered_or_empty(v: &ConfigValue) -> (s: String)
    ensures
        s@ == pretty_or_empty(value_view(*v)),
{
    match render_document(v) {
        Ok(t) => t,
        Err(_) => String::new(),
    }
}

/// The text `nova config view <key>` prints for a value (see [`shown_value`]).
pub fn format_value(v: &ConfigValue) -> (s: String)
    ensures
        s@ == shown_value(value_view(*v)),
{
    match v {
        ConfigValue::Text(t) => copy_text(t),
        ConfigValue::Boolean(b) => {
            proof {
                reveal_strlit("true");
                reveal_strlit("false");
            }
            if *b { "true".to_string() } else { "false".to_string() }
        },
        ConfigValue::Integer(n) => i64_text(*n),
        ConfigValue::Float(t) => copy_text(t),
        _ => rendered_or_empty(v),
    }
}

/// What `nova config view` prints for the settings text `text`: the whole document
/// rendered as TOML (nothing where the renderer refuses it), or with a key the value
/// there (see [`shown_value`]). Fails where the text is not a TOML document, or the
/// key leads nowhere.
pub fn config_view(text: &str, key: Option<&str>) -> (r: Result<String, ConfigError>)
    ensures
        match toml_document(text@) {
            Err(m) => r matches Err(ConfigError::Parse(e)) && e@ == m,
            Ok(doc) => match key {
                None => r matches Ok(s) && s@ == pretty_or_empty(doc),
                Some(k) => match lookup_path(doc, k@) {
                    None => r == Err::<String, ConfigError>(ConfigError::Value(SetError::KeyNotFound)),
                    Some(v) => r matches Ok(s) && s@ == shown_value(v),
                },
            },
        },
{
    let doc = match parse_document(text) {
        Ok(d) => d,
        Err(e) => return Err(ConfigError::Parse(e)),
    };
    match key {
        None => Ok(rendered_or_empty(&doc)),
        Some(k) => match get_nested(&doc, k) {
            None => Err(ConfigError::Value(SetError::KeyNotFound)),
            Some(v) => Ok(format_value(v)),
        },
    }
}

/// The settings text after `nova config set <key> <raw>`: the document read from
/// `text`, the value at `key` replaced by what `raw` reads as (see
/// [`setting_value_spec`]; `raw_float` is the shortest text of the float `raw` reads
/// as, where it reads as one), rendered as TOML. Fails where the text is not a TOML
/// document, the key or value is refused, or the renderer refuses the result.
pub fn config_set(text: &str, key: &str, raw: &str, raw_float: Option<String>) -> (r: Result<String, ConfigError>)
    ensures
        match toml_document(text@) {
            Err(m) => r matches Err(ConfigError::Parse(e)) && e@ == m,
            Ok(doc) => match setting_value_spec(lookup_path(doc, key@), raw@, opt_text(raw_float)) {
                Err(se) => r == Err::<String, ConfigError>(ConfigError::Value(se)),
                Ok(nv) => match set_path(doc, key@, nv) {
                    None => r == Err::<String, ConfigError>(ConfigError::Value(SetError::CannotSet)),
                    Some(w) => match toml_pretty(w) {
                        Ok(out) => r matches Ok(s) && s@ == out,
                        Err(m) => r matches Err(ConfigError::Render(e)) && e@ == m,
                    },
                },
            },
        },
{
    let mut doc = match parse_document(text) {
        Ok(d) => d,
        Err(e) => return Err(ConfigError::Parse(e)),
    };
    match apply_setting(&mut doc, key, raw, raw_float) {
        Err(e) => Err(ConfigError::Value(e)),
        Ok(()) => match render_document(&doc) {
            Ok(out) => Ok(out),
            Err(e) => Err(ConfigError::Render(e)),
        },
    }
}

} // verus!
