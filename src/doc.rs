//! A structured manifest document (JSON, TOML or YAML) as plain values:
//! strings, lists, tables of named entries, and anything else.

use vstd::prelude::*;

use crate::charseq::same_text;

verus! {

#[derive(Debug)]
pub enum Doc {
    Str(String),
    List(Vec<Doc>),
    Table(Vec<(String, Doc)>),
    Other,
}

/// The value of the first entry named `key` among `entries`.
pub open spec fn lookup(entries: Seq<(String, Doc)>, key: Seq<char>) -> Option<Doc>
    decreases entries.len(),
{
    if entries.len() == 0 {
        None
    } else if entries[0].0@ == key {
        Some(entries[0].1)
    } else {
        lookup(entries.drop_first(), key)
    }
}

/// The field `key` of a table; nothing for other documents.
pub open spec fn field(d: Doc, key: Seq<char>) -> Option<Doc> {
    match d {
        Doc::Table(entries) => lookup(entries@, key),
        _ => None,
    }
}

/// The field `key` of an optional document.
pub open spec fn field_of(d: Option<Doc>, key: Seq<char>) -> Option<Doc> {
    match d {
        Some(x) => field(x, key),
        None => None,
    }
}

/// The text of a string document.
pub open spec fn text_of_doc(d: Option<Doc>) -> Option<Seq<char>> {
    match d {
        Some(Doc::Str(s)) => Some(s@),
        _ => None,
    }
}

/// The string items of a list, in order; other items are skipped.
pub open spec fn strings_in(items: Seq<Doc>) -> Seq<Seq<char>>
    decreases items.len(),
{
    if items.len() == 0 {
        Seq::empty()
    } else {
        let rest = strings_in(items.drop_last());
        match items.last() {
            Doc::Str(s) => rest.push(s@),
            _ => rest,
        }
    }
}

/// The string items of a list document; nothing for other documents.
pub open spec fn string_list(d: Option<Doc>) -> Option<Seq<Seq<char>>> {
    match d {
        Some(Doc::List(items)) => Some(strings_in(items@)),
        _ => None,
    }
}

pub open spec fn opt_ref(r: Option<&Doc>) -> Option<Doc> {
    match r {
        Some(d) => Some(*d),
        None => None,
    }
}

/// The field `key` of a table document.
pub fn get<'a>(d: &'a Doc, key: &str) -> (r: Option<&'a Doc>)
    ensures
        opt_ref(r) == field(*d, key@),
{
    match d {
        Doc::Table(entries) => {
            let mut i: usize = 0;
            assert(entries@.skip(0) =~= entries@);
            while i < entries.len()
                invariant
                    i <= entries.len(),
                    field(*d, key@) == lookup(entries@, key@),
                    lookup(entries@.skip(i as int), key@) == lookup(entries@, key@),
                decreases entries.len() - i,
            {
                assert(entries@.skip(i as int).drop_first() =~= entries@.skip(i as int + 1));
                assert(entries@.skip(i as int)[0] == entries@[i as int]);
                let entry = &entries[i];
                if same_text(entry.0.as_str(), key) {
                    assert(lookup(entries@.skip(i as int), key@) == Some(entry.1));

                    let r = Some(&entry.1);
                    assert(opt_ref(r) == Some(entry.1));
                    return r;
                }
                i = i + 1;
            }
            None
        },
        _ => None,
    }
}

/// The field `key` of an optional table document.
pub fn get_opt<'a>(d: Option<&'a Doc>, key: &str) -> (r: Option<&'a Doc>)
    ensures
        opt_ref(r) == field_of(opt_ref(d), key@),
{
    match d {
        Some(x) => get(x, key),
        None => None,
    }
}

/// The text of a string document.
pub fn as_text(d: Option<&Doc>) -> (r: Option<String>)
    ensures
        match r {
            Some(s) => text_of_doc(opt_ref(d)) == Some(s@),
            None => text_of_doc(opt_ref(d)) is None,
        },
{
    match d {
        Some(Doc::Str(s)) => Some(s.clone()),
        _ => None,
    }
}

/// The string items of a list document.
pub fn as_string_list(d: Option<&Doc>) -> (r: Option<Vec<String>>)
    ensures
        match r {
            Some(v) => string_list(opt_ref(d)) == Some(crate::charseq::texts(v@)),
            None => string_list(opt_ref(d)) is None,
        },
{
    match d {
        Some(Doc::List(items)) => {
            let mut out: Vec<String> = Vec::new();
            let mut i: usize = 0;
            while i < items.len()
                invariant
                    i <= items.len(),
                    crate::charseq::texts(out@) == strings_in(items@.take(i as int)),
                decreases items.len() - i,
            {
                let ghost prev = out@;
                assert(items@.take(i as int + 1).drop_last() =~= items@.take(i as int));
                match &items[i] {
                    Doc::Str(s) => {
                        out.push(s.clone());
                        assert(crate::charseq::texts(out@) =~= crate::charseq::texts(prev).push(
                            s@,
                        ));
                    },
                    _ => {},
                }
                i = i + 1;
            }
            assert(items@.take(items.len() as int) =~= items@);
            Some(out)
        },
        _ => None,
    }
}

} // verus!
