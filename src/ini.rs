//! Writing sections of key/value pairs in INI form.
use vstd::prelude::*;

verus! {

/// What std's `str::to_lowercase` makes of a text.
pub uninterp spec fn lower_of(s: Seq<char>) -> Seq<char>;

/// Relies on `str::to_lowercase`: the lowercase form of `s`, which depends
/// on its characters alone.
#[verifier::external_body]
fn lowercase(s: &str) -> (r: String)
    ensures
        r@ == lower_of(s@),
{
    s.to_lowercase()
}

/// One key of a section: a key with a value, or a bare flag.
pub type IniEntry = (String, Option<String>);

/// A named section and its entries.
pub type IniSection = (String, Vec<IniEntry>);

pub open spec fn entry_text(e: IniEntry) -> Seq<char> {
    match e.1 {
        Some(v) => e.0@ + " = "@ + v@ + "\n"@,
        None => e.0@ + "\n"@,
    }
}

pub open spec fn entries_text(es: Seq<IniEntry>, n: int) -> Seq<char>
    decreases n,
{
    if n <= 0 || n > es.len() {
        Seq::empty()
    } else {
        entries_text(es, n - 1) + entry_text(es[n - 1])
    }
}

/// A section: its `[name]` header unless it is the default section, its
/// entries one per line, and a blank line.
pub open spec fn section_text(s: IniSection) -> Seq<char> {
    (if lower_of(s.0@) == "default"@ {
        Seq::empty()
    } else {
        "["@ + s.0@ + "]\n"@
    }) + entries_text(s.1@, s.1@.len() as int) + "\n"@
}

pub open spec fn sections_text(ss: Seq<IniSection>, n: int) -> Seq<char>
    decreases n,
{
    if n <= 0 || n > ss.len() {
        Seq::empty()
    } else {
        sections_text(ss, n - 1) + section_text(ss[n - 1])
    }
}

/// Writes the sections, in order, as INI text.
pub fn map_to_ini_string(map: &Vec<IniSection>) -> (r: String)
    ensures
        r@ == sections_text(map@, map@.len() as int),
{
    let mut result = String::new();
    let mut i: usize = 0;
    while i < map.len()
        invariant
            i <= map@.len(),
            result@ == sections_text(map@, i as int),
        decreases map.len() - i,
    {
        let section = &map[i];
        let ghost before = result@;
        let lower = lowercase(section.0.as_str());
        let is_default = crate::text::same_text(lower.as_str(), "default");
        if !is_default {
            result.append("[");
            result.append(section.0.as_str());
            result.append("]\n");
        }
        let ghost head = result@;
        let mut k: usize = 0;
        while k < section.1.len()
            invariant
                k <= section.1@.len(),
                result@ == head + entries_text(section.1@, k as int),
            decreases section.1.len() - k,
        {
            let entry = &section.1[k];
            result.append(entry.0.as_str());
            match &entry.1 {
                Some(v) => {
                    result.append(" = ");
                    result.append(v.as_str());
                    result.append("\n");
                },
                None => {
                    result.append("\n");
                },
            }
            k = k + 1;
        }
        result.append("\n");
        assert(result@ =~= before + section_text(map@[i as int]));
        i = i + 1;
    }
    result
}

} // verus!
