//! Editing the configuration file: one `section.key` set to a value, every
//! other entry of the TOML document kept.
use vstd::prelude::*;

use crate::config::{config_value_kind, config_value_spec, ConfigValue};
use crate::error::KfError;
use crate::text::{chars_of, push_str, str_eq, string_of};

verus! {

#[verifier::external_type_specification]
#[verifier::external_body]
pub struct ExTomlValue(toml::Value);

/// A value of the configuration file.
pub enum ConfigItem {
    /// A TOML integer.
    Integer(i64),
    /// A TOML boolean.
    Boolean(bool),
    /// A TOML string.
    Text(String),
    /// Any other TOML value (float, date, array, table), carried as it is.
    Kept(toml::Value),
}

/// A top-level entry of the configuration file: a table of values, or a
/// value of another kind.
pub enum ConfigSection {
    /// A table: its keys and values, in order.
    Table(Vec<(String, ConfigItem)>),
    /// Any other value, carried as it is.
    Other(toml::Value),
}

/// The configuration file as the edit sees it: its top-level entries, in order.
pub struct ConfigDocument {
    /// Top-level keys and their entries.
    pub sections: Vec<(String, ConfigSection)>,
}

/// The view of a value.
pub enum ItemView {
    /// An integer.
    Integer(i64),
    /// A boolean.
    Boolean(bool),
    /// A string.
    Text(Seq<char>),
    /// Any other value.
    Kept(toml::Value),
}

/// The view of a top-level entry.
pub enum SectionView {
    /// A table of keys and values.
    Table(Seq<(Seq<char>, ItemView)>),
    /// Any other value.
    Other(toml::Value),
}

/// The view of a value.
pub open spec fn item_view(i: ConfigItem) -> ItemView {
    match i {
        ConfigItem::Integer(n) => ItemView::Integer(n),
        ConfigItem::Boolean(b) => ItemView::Boolean(b),
        ConfigItem::Text(s) => ItemView::Text(s@),
        ConfigItem::Kept(v) => ItemView::Kept(v),
    }
}

/// The view of the entries of a table.
pub open spec fn entries_view(es: Seq<(String, ConfigItem)>) -> Seq<(Seq<char>, ItemView)> {
    es.map_values(|p: (String, ConfigItem)| (p.0@, item_view(p.1)))
}

/// The view of a top-level entry.
pub open spec fn section_view(s: ConfigSection) -> SectionView {
    match s {
        ConfigSection::Table(es) => SectionView::Table(entries_view(es@)),
        ConfigSection::Other(v) => SectionView::Other(v),
    }
}

/// The view of a document.
pub open spec fn document_view(d: ConfigDocument) -> Seq<(Seq<char>, SectionView)> {
    d.sections@.map_values(|p: (String, ConfigSection)| (p.0@, section_view(p.1)))
}

/// The document that toml's `from_str` reads from `text` (top-level keys
/// and values in the parsed table's order), `None` when the text is no TOML.
pub uninterp spec fn toml_document(text: Seq<char>) -> Option<Seq<(Seq<char>, SectionView)>>;

/// The text, or the error message, that toml's `to_string_pretty` gives
/// for a document.
pub uninterp spec fn toml_document_text(doc: Seq<(Seq<char>, SectionView)>) -> Result<Seq<char>, Seq<char>>;

/// toml's `from_str` into a table, its entries taken apart into the
/// document: tables of a section into their entries, integers, booleans and
/// strings into their values, any other value carried as it is. Claimed:
/// the result is the named document of the text, which depends on the
/// text alone.
#[verifier::external_body]
fn read_toml_document(text: &str) -> (r: Option<ConfigDocument>)
    ensures
        r is None ==> toml_document(text@) is None,
        r matches Some(d) ==> toml_document(text@) == Some(document_view(d)),
{
    let item = |v: toml::Value| match v {
        toml::Value::Integer(n) => ConfigItem::Integer(n),
        toml::Value::Boolean(b) => ConfigItem::Boolean(b),
        toml::Value::String(s) => ConfigItem::Text(s),
        other => ConfigItem::Kept(other),
    };
    let section = |v: toml::Value| match v {
        toml::Value::Table(t) => ConfigSection::Table(t.into_iter().map(|(k, v)| (k, item(v))).collect()),
        other => ConfigSection::Other(other),
    };
    let table = toml::from_str::<toml::Table>(text).ok()?;
    Some(ConfigDocument { sections: table.into_iter().map(|(k, v)| (k, section(v))).collect() })
}

/// The document put back together as a toml table, then toml's
/// `to_string_pretty`; its error as text. Claimed: the result is the named
/// text of the document's view.
#[verifier::external_body]
fn write_toml_document(doc: ConfigDocument) -> (r: Result<String, String>)
    ensures
        match r {
            Ok(t) => toml_document_text(document_view(doc)) == Ok::<Seq<char>, Seq<char>>(t@),
            Err(e) => toml_document_text(document_view(doc)) == Err::<Seq<char>, Seq<char>>(e@),
        },
{
    let value = |i: ConfigItem| match i {
        ConfigItem::Integer(n) => toml::Value::Integer(n),
        ConfigItem::Boolean(b) => toml::Value::Boolean(b),
        ConfigItem::Text(s) => toml::Value::String(s),
        ConfigItem::Kept(v) => v,
    };
    let table: toml::Table = doc.sections.into_iter().map(|(k, s)| (k, match s {
        ConfigSection::Table(es) => toml::Value::Table(es.into_iter().map(|(k, i)| (k, value(i))).collect()),
        ConfigSection::Other(v) => v,
    })).collect();
    toml::to_string_pretty(&toml::Value::Table(table)).map_err(|e| e.to_string())
}

// ── The edit ────────────────────────────────────────────────────────────────

/// Position of the first entry named `name`, if any.
pub open spec fn first_named<T>(entries: Seq<(Seq<char>, T)>, name: Seq<char>) -> Option<int>
    decreases entries.len(),
{
    if entries.len() == 0 {
        None
    } else if entries.last().0 == name && first_named(entries.drop_last(), name) is None {
        Some(entries.len() - 1)
    } else {
        first_named(entries.drop_last(), name)
    }
}

/// The table's entries with `key` set to `item`: its entry replaced in
/// place, or a new entry at the end.
pub open spec fn set_entry(es: Seq<(Seq<char>, ItemView)>, key: Seq<char>, item: ItemView) -> Seq<(Seq<char>, ItemView)> {
    match first_named(es, key) {
        Some(j) => es.update(j, (key, item)),
        None => es.push((key, item)),
    }
}

/// The document with `section.key` set to `item`: the section's table
/// edited, or a new section at the end; `None` when the section holds
/// something other than a table.
pub open spec fn updated_document(doc: Seq<(Seq<char>, SectionView)>, section: Seq<char>, key: Seq<char>, item: ItemView) -> Option<Seq<(Seq<char>, SectionView)>> {
    match first_named(doc, section) {
        None => Some(doc.push((section, SectionView::Table(seq![(key, item)])))),
        Some(i) => match doc[i].1 {
            SectionView::Table(es) => Some(doc.update(i, (section, SectionView::Table(set_entry(es, key, item))))),
            SectionView::Other(_) => None,
        },
    }
}

/// The document the edit starts from: the file's text read as TOML, or an
/// empty document when there is no file or its text is no TOML.
pub open spec fn base_document(text: Option<String>) -> Seq<(Seq<char>, SectionView)> {
    match text {
        Some(t) => match toml_document(t@) {
            Some(d) => d,
            None => seq![],
        },
        None => seq![],
    }
}

/// The value stored for `value`: an integer, the caller's float, a boolean,
/// or the text, as `config_value_spec` decides.
pub open spec fn stored_item(value: Seq<char>, float_value: Option<toml::Value>) -> ItemView {
    match config_value_spec(value, float_value is Some) {
        ConfigValue::Integer(i) => ItemView::Integer(i),
        ConfigValue::Float => ItemView::Kept(float_value->0),
        ConfigValue::Boolean(b) => ItemView::Boolean(b),
        ConfigValue::Text => ItemView::Text(value),
    }
}

/// The message for a section that is no table.
pub open spec fn not_a_table_message(section: Seq<char>) -> Seq<char> {
    "section '"@ + section + "' n'est pas une table"@
}

/// Position of the first section named `name`, if any.
fn find_section(v: &Vec<(String, ConfigSection)>, name: &str) -> (r: Option<usize>)
    ensures
        r matches Some(j) ==> j < v@.len() && first_named(v@.map_values(|p: (String, ConfigSection)| (p.0@, section_view(p.1))), name@) == Some(j as int),
        r is None ==> first_named(v@.map_values(|p: (String, ConfigSection)| (p.0@, section_view(p.1))), name@) is None,
{
    let ghost view = v@.map_values(|p: (String, ConfigSection)| (p.0@, section_view(p.1)));
    let mut k: usize = 0;
    while k < v.len()
        invariant
            k <= v@.len(),
            view == v@.map_values(|p: (String, ConfigSection)| (p.0@, section_view(p.1))),
            forall|q: int| 0 <= q < k ==> (#[trigger] view[q]).0 != name@,
        decreases v.len() - k,
    {
        proof {
            assert(view[k as int].0 == v@[k as int].0@);
        }
        if str_eq(v[k].0.as_str(), name) {
            proof {
                let pre = view.subrange(0, k as int);
                assert forall|q: int| 0 <= q < pre.len() implies (#[trigger] pre[q]).0 != name@ by {
                    assert(pre[q] == view[q]);
                }
                lemma_first_named_none(pre, name@);
                lemma_first_named_at(view, name@, k as int, view.len() as int);
                assert(view.subrange(0, view.len() as int) =~= view);
            }
            return Some(k);
        }
        k = k + 1;
    }
    proof {
        lemma_first_named_none(view, name@);
    }
    None
}

/// Position of the first entry named `name`, if any.
fn find_key(v: &Vec<(String, ConfigItem)>, name: &str) -> (r: Option<usize>)
    ensures
        r matches Some(j) ==> j < v@.len() && first_named(entries_view(v@), name@) == Some(j as int),
        r is None ==> first_named(entries_view(v@), name@) is None,
{
    let ghost view = entries_view(v@);
    let mut k: usize = 0;
    while k < v.len()
        invariant
            k <= v@.len(),
            view == entries_view(v@),
            forall|q: int| 0 <= q < k ==> (#[trigger] view[q]).0 != name@,
        decreases v.len() - k,
    {
        proof {
            assert(view[k as int].0 == v@[k as int].0@);
        }
        if str_eq(v[k].0.as_str(), name) {
            proof {
                let pre = view.subrange(0, k as int);
                assert forall|q: int| 0 <= q < pre.len() implies (#[trigger] pre[q]).0 != name@ by {
                    assert(pre[q] == view[q]);
                }
                lemma_first_named_none(pre, name@);
                lemma_first_named_at(view, name@, k as int, view.len() as int);
                assert(view.subrange(0, view.len() as int) =~= view);
            }
            return Some(k);
        }
        k = k + 1;
    }
    proof {
        lemma_first_named_none(view, name@);
    }
    None
}

/// The entry found first has the name searched.
proof fn lemma_first_named_found<T>(view: Seq<(Seq<char>, T)>, name: Seq<char>, j: int)
    requires
        first_named(view, name) == Some(j),
    ensures
        0 <= j < view.len(),
        view[j].0 == name,
    decreases view.len(),
{
    if view.len() > 0 && !(view.last().0 == name && first_named(view.drop_last(), name) is None) {
        lemma_first_named_found(view.drop_last(), name, j);
    }
}

proof fn lemma_first_named_at<T>(view: Seq<(Seq<char>, T)>, name: Seq<char>, j: int, n: int)
    requires
        0 <= j < n <= view.len(),
        view[j].0 == name,
        first_named(view.subrange(0, j), name) is None,
    ensures
        first_named(view.subrange(0, n), name) == Some(j),
    decreases n,
{
    let s = view.subrange(0, n);
    assert(s.drop_last() =~= view.subrange(0, n - 1));
    if n - 1 > j {
        lemma_first_named_at(view, name, j, n - 1);
    } else {
        assert(view.subrange(0, n - 1) =~= view.subrange(0, j));
    }
    if n == view.len() {
        assert(s =~= view);
    }
}

proof fn lemma_first_named_none<T>(view: Seq<(Seq<char>, T)>, name: Seq<char>)
    requires
        forall|k: int| 0 <= k < view.len() ==> (#[trigger] view[k]).0 != name,
    ensures
        first_named(view, name) is None,
    decreases view.len(),
{
    if view.len() > 0 {
        let d = view.drop_last();
        assert forall|k: int| 0 <= k < d.len() implies (#[trigger] d[k]).0 != name by {
            assert(d[k] == view[k]);
        }
        lemma_first_named_none(d, name);
    }
}

/// The text of the configuration file once `section.key` is set to `value`
/// (an integer, the caller's float when `float_value` is given, a boolean,
/// else the text, as `config_value_spec` decides), every other entry kept;
/// the file's text is `text`, read as an empty document when it is absent
/// or no TOML. A section that holds no table, or a document toml cannot
/// write, is a configuration error.
pub fn set_in_config_text(
    text: Option<String>,
    section: &str,
    key: &str,
    value: &str,
    float_value: Option<toml::Value>,
) -> (r: Result<String, KfError>)
    ensures
        ({
            let item = stored_item(value@, float_value);
            match updated_document(base_document(text), section@, key@, item) {
                None => r matches Err(KfError::Config(m)) && m@ == not_a_table_message(section@),
                Some(d) => match toml_document_text(d) {
                    Ok(t) => r matches Ok(out) && out@ == t,
                    Err(e) => r matches Err(KfError::Config(m)) && m@ == e,
                },
            }
        }),
{
    let ghost base = base_document(text);
    let doc: ConfigDocument = match text {
        Some(t) => match read_toml_document(t.as_str()) {
            Some(d) => d,
            None => ConfigDocument { sections: Vec::new() },
        },
        None => ConfigDocument { sections: Vec::new() },
    };
    proof {
        assert(document_view(doc) =~= base);
    }
    let item: ConfigItem = match config_value_kind(value, float_value.is_some()) {
        ConfigValue::Integer(i) => ConfigItem::Integer(i),
        ConfigValue::Float => match float_value {
            Some(f) => ConfigItem::Kept(f),
            None => ConfigItem::Text(String::from_str(value)),
        },
        ConfigValue::Boolean(b) => ConfigItem::Boolean(b),
        ConfigValue::Text => ConfigItem::Text(String::from_str(value)),
    };
    let ghost iv = item_view(item);
    assert(iv == stored_item(value@, float_value));
    let mut sections = doc.sections;
    let ghost before = sections@.map_values(|p: (String, ConfigSection)| (p.0@, section_view(p.1)));
    match find_section(&sections, section) {
        None => {
            let mut es: Vec<(String, ConfigItem)> = Vec::new();
            es.push((String::from_str(key), item));
            proof {
                assert(entries_view(es@) =~= seq![(key@, iv)]);
            }
            sections.push((String::from_str(section), ConfigSection::Table(es)));
            proof {
                assert(sections@.map_values(|p: (String, ConfigSection)| (p.0@, section_view(p.1)))
                    =~= before.push((section@, SectionView::Table(seq![(key@, iv)]))));
            }
        },
        Some(i) => {
            let ghost old_secs = sections@;
            let (name, sec) = sections.remove(i);
            proof {
                assert(before[i as int] == (name@, section_view(sec)));
                lemma_first_named_found(before, section@, i as int);
            }
            match sec {
                ConfigSection::Other(v) => {
                    let mut msg = chars_of("section '");
                    push_str(&mut msg, section);
                    push_str(&mut msg, "' n'est pas une table");
                    return Err(KfError::Config(string_of(&msg)));
                },
                ConfigSection::Table(mut es) => {
                    let ghost ev = entries_view(es@);
                    match find_key(&es, key) {
                        Some(j) => {
                            let _old = es.remove(j);
                            es.insert(j, (String::from_str(key), item));
                            proof {
                                assert(entries_view(es@) =~= ev.update(j as int, (key@, iv)));
                            }
                        },
                        None => {
                            es.push((String::from_str(key), item));
                            proof {
                                assert(entries_view(es@) =~= ev.push((key@, iv)));
                            }
                        },
                    }
                    let ghost nes = entries_view(es@);
                    assert(nes == set_entry(ev, key@, iv));
                    sections.insert(i, (name, ConfigSection::Table(es)));
                    proof {
                        assert(sections@ =~= old_secs.update(i as int, (name, ConfigSection::Table(es))));
                        assert(sections@.map_values(|p: (String, ConfigSection)| (p.0@, section_view(p.1)))
                            =~= before.update(i as int, (section@, SectionView::Table(nes))));
                    }
                },
            }
        },
    }
    match write_toml_document(ConfigDocument { sections }) {
        Ok(t) => Ok(t),
        Err(e) => Err(KfError::Config(e)),
    }
}

// ── What the edit keeps ─────────────────────────────────────────────────────

/// The top-level entry named `section`, if any.
pub open spec fn section_of(doc: Seq<(Seq<char>, SectionView)>, section: Seq<char>) -> Option<SectionView> {
    match first_named(doc, section) {
        Some(i) => Some(doc[i].1),
        None => None,
    }
}

/// The value of `section.key`, if the section is a table that has the key.
pub open spec fn value_at(doc: Seq<(Seq<char>, SectionView)>, section: Seq<char>, key: Seq<char>) -> Option<ItemView> {
    match section_of(doc, section) {
        Some(SectionView::Table(es)) => match first_named(es, key) {
            Some(j) => Some(es[j].1),
            None => None,
        },
        _ => None,
    }
}

proof fn lemma_first_named_same_names<T, U>(a: Seq<(Seq<char>, T)>, b: Seq<(Seq<char>, U)>, name: Seq<char>)
    requires
        a.len() == b.len(),
        forall|i: int| 0 <= i < a.len() ==> (#[trigger] a[i]).0 == b[i].0,
    ensures
        first_named(a, name) == first_named(b, name),
    decreases a.len(),
{
    if a.len() > 0 {
        let (da, db) = (a.drop_last(), b.drop_last());
        assert forall|i: int| 0 <= i < da.len() implies (#[trigger] da[i]).0 == db[i].0 by {
            assert(da[i] == a[i] && db[i] == b[i]);
        }
        lemma_first_named_same_names(da, db, name);
        assert(a.last().0 == b.last().0);
    }
}

proof fn lemma_first_named_push<T>(a: Seq<(Seq<char>, T)>, x: (Seq<char>, T), name: Seq<char>)
    ensures
        first_named(a.push(x), name) == (if first_named(a, name) is Some {
            first_named(a, name)
        } else if x.0 == name {
            Some(a.len() as int)
        } else {
            None
        }),
{
    assert(a.push(x).drop_last() =~= a);
}

/// Setting a value leaves every name where it was when the name is there,
/// and otherwise adds it at the end.
proof fn lemma_set_entry_names(es: Seq<(Seq<char>, ItemView)>, key: Seq<char>, item: ItemView, k2: Seq<char>)
    ensures
        first_named(set_entry(es, key, item), key) is Some,
        set_entry(es, key, item)[first_named(set_entry(es, key, item), key)->0].1 == item,
        k2 != key ==> first_named(set_entry(es, key, item), k2) == first_named(es, k2),
        k2 != key && first_named(es, k2) is Some ==>
            set_entry(es, key, item)[first_named(es, k2)->0].1 == es[first_named(es, k2)->0].1,
{
    match first_named(es, key) {
        Some(j) => {
            lemma_first_named_found(es, key, j);
            let n = es.update(j, (key, item));
            lemma_first_named_same_names(es, n, key);
            lemma_first_named_same_names(es, n, k2);
            if k2 != key && first_named(es, k2) is Some {
                lemma_first_named_found(es, k2, first_named(es, k2)->0);
            }
        },
        None => {
            lemma_first_named_push(es, (key, item), key);
            lemma_first_named_push(es, (key, item), k2);
            if k2 != key && first_named(es, k2) is Some {
                lemma_first_named_found(es, k2, first_named(es, k2)->0);
            }
        },
    }
}

/// The edit sets `section.key` and keeps everything else: the value of
/// every other key of the section, and every other top-level entry, are
/// what they were.
pub proof fn lemma_update_keeps_others(
    doc: Seq<(Seq<char>, SectionView)>,
    section: Seq<char>,
    key: Seq<char>,
    item: ItemView,
    other_section: Seq<char>,
    other_key: Seq<char>,
)
    requires
        updated_document(doc, section, key, item) is Some,
    ensures
        value_at(updated_document(doc, section, key, item)->0, section, key) == Some(item),
        other_key != key ==> value_at(updated_document(doc, section, key, item)->0, section, other_key)
            == value_at(doc, section, other_key),
        other_section != section ==> section_of(updated_document(doc, section, key, item)->0, other_section)
            == section_of(doc, other_section),
{
    let d = updated_document(doc, section, key, item)->0;
    match first_named(doc, section) {
        None => {
            let x = (section, SectionView::Table(seq![(key, item)]));
            lemma_first_named_push(doc, x, section);
            lemma_first_named_push(doc, x, other_section);
            lemma_set_entry_names(seq![], key, item, other_key);
            assert(set_entry(seq![], key, item) =~= seq![(key, item)]);
            if other_section != section && first_named(doc, other_section) is Some {
                lemma_first_named_found(doc, other_section, first_named(doc, other_section)->0);
            }
        },
        Some(i) => {
            lemma_first_named_found(doc, section, i);
            let es = doc[i].1->Table_0;
            lemma_first_named_same_names(doc, d, section);
            lemma_first_named_same_names(doc, d, other_section);
            lemma_set_entry_names(es, key, item, other_key);
            if other_section != section && first_named(doc, other_section) is Some {
                lemma_first_named_found(doc, other_section, first_named(doc, other_section)->0);
            }
        },
    }
}

} // verus!


