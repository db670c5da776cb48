//! Section-based configuration handling: parsing a configuration text into
//! ordered sections and flattening it into the single comma-joined string
//! that is embedded as node metadata.
use crate::strutil::{join_comma, joined_commas, views_of};
use vstd::prelude::*;
use vstd::string::*;

verus! {

/// One named section: its name and its key/value pairs in order.
pub struct ConfigSection {
    pub name: String,
    pub entries: Vec<(String, String)>,
}

/// A parsed configuration: the unnamed global section's pairs first, then
/// the named sections in order of appearance.
pub struct ConfigFile {
    pub global: Vec<(String, String)>,
    pub sections: Vec<ConfigSection>,
}

/// The mathematical image of a configuration: every string as a character
/// sequence.
pub ghost struct ConfigModel {
    pub global: Seq<(Seq<char>, Seq<char>)>,
    pub sections: Seq<(Seq<char>, Seq<(Seq<char>, Seq<char>)>)>,
}

pub open spec fn entry_model(e: (String, String)) -> (Seq<char>, Seq<char>) {
    (e.0@, e.1@)
}

pub open spec fn entries_model(es: Seq<(String, String)>) -> Seq<(Seq<char>, Seq<char>)> {
    es.map_values(|e: (String, String)| entry_model(e))
}

pub open spec fn section_model(s: ConfigSection) -> (Seq<char>, Seq<(Seq<char>, Seq<char>)>) {
    (s.name@, entries_model(s.entries@))
}

pub open spec fn sections_model(ss: Seq<ConfigSection>) -> Seq<
    (Seq<char>, Seq<(Seq<char>, Seq<char>)>),
> {
    ss.map_values(|s: ConfigSection| section_model(s))
}

pub open spec fn config_model(c: ConfigFile) -> ConfigModel {
    ConfigModel { global: entries_model(c.global@), sections: sections_model(c.sections@) }
}

/// One `key=value` entry.
pub open spec fn entry_chars(e: (Seq<char>, Seq<char>)) -> Seq<char> {
    e.0 + seq!['='] + e.1
}

/// The rendered entries of a list of pairs.
pub open spec fn entries_parts(es: Seq<(Seq<char>, Seq<char>)>) -> Seq<Seq<char>> {
    es.map_values(|e: (Seq<char>, Seq<char>)| entry_chars(e))
}

/// One `[name]` section marker.
pub open spec fn marker_chars(name: Seq<char>) -> Seq<char> {
    seq!['['] + name + seq![']']
}

/// The entries a named section contributes: its marker, then its pairs.
pub open spec fn section_parts(s: (Seq<char>, Seq<(Seq<char>, Seq<char>)>)) -> Seq<Seq<char>> {
    seq![marker_chars(s.0)] + entries_parts(s.1)
}

pub open spec fn sections_parts(ss: Seq<(Seq<char>, Seq<(Seq<char>, Seq<char>)>)>) -> Seq<
    Seq<char>,
>
    decreases ss.len(),
{
    if ss.len() == 0 {
        Seq::empty()
    } else {
        sections_parts(ss.drop_last()) + section_parts(ss.last())
    }
}

/// Every entry the flattened form carries, in order: global pairs, then per
/// named section a marker followed by its pairs.
pub open spec fn config_parts(m: ConfigModel) -> Seq<Seq<char>> {
    entries_parts(m.global) + sections_parts(m.sections)
}

/// The flattened single-string form: all entries joined with commas.
pub open spec fn flatten_spec(m: ConfigModel) -> Seq<char> {
    joined_commas(config_parts(m))
}

fn make_entry(k: &String, v: &String) -> (r: String)
    ensures
        r@ == k@ + seq!['='] + v@,
{
    let mut r = k.clone();
    r.append("=");
    r.append(v.as_str());
    proof {
        reveal_strlit("=");
        assert(r@ =~= k@ + seq!['='] + v@);
    }
    r
}

fn make_marker(name: &String) -> (r: String)
    ensures
        r@ == seq!['['] + name@ + seq![']'],
{
    let mut r = String::from_str("[");
    r.append(name.as_str());
    r.append("]");
    proof {
        reveal_strlit("[");
        reveal_strlit("]");
        assert(r@ =~= seq!['['] + name@ + seq![']']);
    }
    r
}

/// Flattens a parsed configuration into its single-string form, exactly as
/// `flatten_spec` describes it.
pub fn dump_bitcoin_conf(conf: &ConfigFile) -> (r: String)
    ensures
        r@ == flatten_spec(config_model(*conf)),
{
    let ghost m = config_model(*conf);
    let mut parts: Vec<String> = Vec::new();
    let mut i: usize = 0;
    while i < conf.global.len()
        invariant
            i <= conf.global@.len(),
            m == config_model(*conf),
            views_of(parts@) == entries_parts(m.global.subrange(0, i as int)),
        decreases conf.global@.len() - i,
    {
        let ghost oldparts = parts@;
        let e = &conf.global[i];
        let entry = make_entry(&e.0, &e.1);
        parts.push(entry);
        proof {
            assert(m.global[i as int] == entry_model(conf.global@[i as int]));
            assert(views_of(oldparts).len() == oldparts.len());
            assert(entries_parts(m.global.subrange(0, i as int)).len() == i);
            let lhs = views_of(parts@);
            let rhs = entries_parts(m.global.subrange(0, i + 1));
            assert(lhs.len() == parts@.len() == i + 1);
            assert(rhs.len() == i + 1);
            assert forall|q: int| 0 <= q < lhs.len() implies lhs[q] == rhs[q] by {
                assert(lhs[q] == parts@[q]@);
                assert(rhs[q] == entry_chars(m.global.subrange(0, i + 1)[q]));
                assert(m.global.subrange(0, i + 1)[q] == m.global[q]);
                if q < i {
                    assert(parts@[q] == oldparts[q]);
                    assert(views_of(oldparts)[q] == oldparts[q]@);
                    assert(entries_parts(m.global.subrange(0, i as int))[q] == entry_chars(
                        m.global.subrange(0, i as int)[q],
                    ));
                } else {
                    assert(parts@[q] == entry);
                }
            }
            assert(lhs =~= rhs);
        }
        i += 1;
    }
    proof {
        assert(m.global.subrange(0, m.global.len() as int) =~= m.global);
    }
    let ghost globals = entries_parts(m.global);
    let mut j: usize = 0;
    while j < conf.sections.len()
        invariant
            j <= conf.sections@.len(),
            m == config_model(*conf),
            globals == entries_parts(m.global),
            views_of(parts@) == globals + sections_parts(m.sections.subrange(0, j as int)),
        decreases conf.sections@.len() - j,
    {
        let sec = &conf.sections[j];
        let ghost sm = section_model(*sec);
        proof {
            assert(m.sections[j as int] == sm);
        }
        let marker = make_marker(&sec.name);
        parts.push(marker);
        proof {
            assert(views_of(parts@) =~~= globals + sections_parts(m.sections.subrange(0, j as int))
                + seq![marker_chars(sm.0)]);
        }
        let ghost base = views_of(parts@);
        let mut k: usize = 0;
        while k < sec.entries.len()
            invariant
                k <= sec.entries@.len(),
                sm == section_model(*sec),
                views_of(parts@) == base + entries_parts(sm.1.subrange(0, k as int)),
            decreases sec.entries@.len() - k,
        {
            let ghost oldparts = parts@;
            let e = &sec.entries[k];
            let entry = make_entry(&e.0, &e.1);
            parts.push(entry);
            proof {
                assert(sm.1[k as int] == entry_model(sec.entries@[k as int]));
                assert(views_of(oldparts).len() == oldparts.len());
                assert(entries_parts(sm.1.subrange(0, k as int)).len() == k);
                assert(base.len() == oldparts.len() - k);
                let lhs = views_of(parts@);
                let rhs = base + entries_parts(sm.1.subrange(0, k + 1));
                assert(lhs.len() == parts@.len());
                assert(rhs.len() == base.len() + k + 1 == lhs.len());
                assert forall|q: int| 0 <= q < lhs.len() implies lhs[q] == rhs[q] by {
                    assert(lhs[q] == parts@[q]@);
                    if q < oldparts.len() {
                        assert(parts@[q] == oldparts[q]);
                        assert(views_of(oldparts)[q] == oldparts[q]@);
                        if q >= base.len() {
                            let p = q - base.len();
                            assert(entries_parts(sm.1.subrange(0, k as int))[p] == entry_chars(
                                sm.1.subrange(0, k as int)[p],
                            ));
                            assert(sm.1.subrange(0, k as int)[p] == sm.1[p]);
                            assert(entries_parts(sm.1.subrange(0, k + 1))[p] == entry_chars(
                                sm.1.subrange(0, k + 1)[p],
                            ));
                            assert(sm.1.subrange(0, k + 1)[p] == sm.1[p]);
                        }
                    } else {
                        assert(parts@[q] == entry);
                        assert(entries_parts(sm.1.subrange(0, k + 1))[k as int] == entry_chars(
                            sm.1.subrange(0, k + 1)[k as int],
                        ));
                        assert(sm.1.subrange(0, k + 1)[k as int] == sm.1[k as int]);
                    }
                }
                assert(lhs =~= rhs);
            }
            k += 1;
        }
        proof {
            assert(sm.1.subrange(0, sm.1.len() as int) =~= sm.1);
            let sub1 = m.sections.subrange(0, j + 1);
            assert(sub1.drop_last() =~= m.sections.subrange(0, j as int));
            assert(sub1.last() == sm);
            assert(views_of(parts@) =~~= globals + sections_parts(sub1));
        }
        j += 1;
    }
    proof {
        assert(m.sections.subrange(0, m.sections.len() as int) =~= m.sections);
        assert(views_of(parts@) =~~= config_parts(m));
    }
    join_comma(&parts)
}

/// A name for what rust-ini's parser accepts and produces: whether a text
/// parses, and into which ordered sections, depends on the text alone.
pub uninterp spec fn ini_model_of(s: Seq<char>) -> Option<ConfigModel>;

/// Relies on rust-ini's `Ini::load_from_str`: the parsed sections converted
/// to plain pairs, the global section's pairs first, every named section in
/// its order of appearance with its pairs in order.
#[verifier::external_body]
pub fn parse_bitcoin_conf(text: &str) -> (r: Result<ConfigFile, String>)
    ensures
        match r {
            Ok(c) => ini_model_of(text@) == Some(config_model(c)),
            Err(_) => ini_model_of(text@) is None,
        },
{
    match ini::Ini::load_from_str(text) {
        Ok(ini) => {
            let pairs = |p: &ini::Properties| p.iter().map(|(k, v)| (k.to_string(), v.to_string())).collect();
            let sections = ini.iter().filter_map(
                |(name, props)| name.map(|n| ConfigSection { name: n.to_string(), entries: pairs(props) }),
            ).collect();
            Ok(ConfigFile { global: pairs(ini.general_section()), sections })
        }
        Err(e) => Err(e.to_string()),
    }
}

/// Flattens an optional configuration text: an absent text yields the empty
/// string; a present text must parse, else its parse error comes back.
pub fn handle_bitcoin_conf(conf_text: Option<&str>) -> (r: Result<String, String>)
    ensures
        match conf_text {
            None => r matches Ok(s) && s@ == Seq::<char>::empty(),
            Some(t) => match r {
                Ok(s) => ini_model_of(t@) matches Some(m) && s@ == flatten_spec(m),
                Err(_) => ini_model_of(t@) is None,
            },
        },
{
    match conf_text {
        None => Ok(String::new()),
        Some(t) => match parse_bitcoin_conf(t) {
            Ok(c) => Ok(dump_bitcoin_conf(&c)),
            Err(e) => Err(e),
        },
    }
}

} // verus!
