//! The autonomous-system registry: the line grammar of the registry
//! dump and the id-keyed table built from its lines.
//!
//! A line reads `<id> <handle>[ - <name>], <country>`: the id is the
//! first whitespace-delimited token; the country follows the last `, `
//! (or, without one, the last space); between them stand the handle
//! and, after a ` - ` separator, the optional long name.

use std::collections::HashMap;
use std::sync::Arc;
use vstd::prelude::*;

use crate::text::{
    dec_u32, first_at_idx, first_match_idx, has_char, has_match, last_at_idx, last_match_idx,
    lemma_first_at_unique, lemma_first_match_unique, lemma_last_at_unique,
    lemma_last_match_unique, strip_trailing,
};

verus! {

broadcast use vstd::std_specs::hash::group_hash_axioms;

/// One autonomous system: registry id, short handle, optional long
/// name, and country.
#[derive(Debug, Clone)]
pub struct AutonomousSystemNumber {
    pub id: u32,
    pub handle: String,
    pub name: Option<String>,
    pub country: String,
}

/// The fields of a descriptor as mathematical values.
pub ghost struct AsnView {
    pub id: u32,
    pub handle: Seq<char>,
    pub name: Option<Seq<char>>,
    pub country: Seq<char>,
}

impl View for AutonomousSystemNumber {
    type V = AsnView;

    open spec fn view(&self) -> AsnView {
        AsnView {
            id: self.id,
            handle: self.handle@,
            name: self.name.deep_view(),
            country: self.country@,
        }
    }
}

impl DeepView for AutonomousSystemNumber {
    type V = AsnView;

    open spec fn deep_view(&self) -> AsnView {
        self.view()
    }
}

// ---------------------------------------------------------------------------
// Line grammar

/// Split what follows the id into the handle-and-name part and the
/// country: the country stands after the last `, `, or after the last
/// plain space, or is the whole remainder when no space is left.
pub open spec fn country_split(rest: Seq<char>) -> (Seq<char>, Seq<char>) {
    if has_match(rest, ", "@) {
        let m = last_match_idx(rest, ", "@);
        (rest.take(m), rest.skip(m + 2))
    } else if has_char(rest, ' ') {
        let l = last_at_idx(rest, ' ');
        (rest.take(l), rest.skip(l + 1))
    } else {
        (Seq::<char>::empty(), rest)
    }
}

/// The handle and optional name of a registry entry fragment: split at
/// the first ` - ` when there is one, with trailing commas stripped
/// from the name; otherwise the fragment is a bare handle.
pub open spec fn split_handle_name(v: Seq<char>) -> (Seq<char>, Option<Seq<char>>) {
    if has_match(v, " - "@) {
        let d = first_match_idx(v, " - "@);
        (v.take(d), Some(strip_trailing(v.skip(d + 3), ',')))
    } else {
        (v, None)
    }
}

/// As `split_handle_name`, but a bare fragment with further tokens
/// keeps only its first token as the handle.
pub open spec fn handle_name_of(front: Seq<char>) -> (Seq<char>, Option<Seq<char>>) {
    if has_match(front, " - "@) {
        split_handle_name(front)
    } else if has_char(front, ' ') {
        (front.take(first_at_idx(front, ' ')), None)
    } else {
        (front, None)
    }
}

/// The descriptor a registry line denotes, if the line is well formed:
/// it must have an id token that is a decimal `u32`, and at least one
/// space after the id.
pub open spec fn parse_asn_spec(line: Seq<char>) -> Option<AsnView> {
    if !has_char(line, ' ') {
        None
    } else {
        let f = first_at_idx(line, ' ');
        match dec_u32(line.take(f)) {
            None => None,
            Some(id) => {
                let rest = line.skip(f + 1);
                let fc = country_split(rest);
                let hn = handle_name_of(fc.0);
                Some(AsnView { id, handle: hn.0, name: hn.1, country: fc.1 })
            },
        }
    }
}

/// Split a registry fragment into handle and optional name, the name
/// stripped of trailing commas.
pub fn parse_handle_and_name(value: &str) -> (r: (String, Option<String>))
    ensures
        r.0@ == split_handle_name(value@).0,
        r.1.deep_view() == split_handle_name(value@).1,
{
    proof {
        reveal_strlit(" - ");
    }
    match crate::text::find_sub(value, " - ") {
        Some(d) => {
            proof {
                lemma_first_match_unique(
                    value@,
                    " - "@,
                    d as int,
                    first_match_idx(value@, " - "@),
                );
            }
            let n: usize = value.unicode_len();
            let handle = value.substring_char(0, d).to_owned();
            let name = crate::text::strip_trailing_chars(value.substring_char(d + 3, n), ',');
            (handle, Some(name))
        },
        None => (value.to_owned(), None),
    }
}

/// Parse one registry line into a descriptor; a line without a space
/// or without a decimal id yields nothing.
pub fn parse_autonomous_system_number(line: &str) -> (r: Option<AutonomousSystemNumber>)
    ensures
        r.deep_view() == parse_asn_spec(line@),
{
    proof {
        reveal_strlit(", ");
        reveal_strlit(" - ");
    }
    let n: usize = line.unicode_len();
    let f: usize = match crate::text::find_char(line, ' ') {
        Some(f) => f,
        None => {
            return None;
        },
    };
    proof {
        lemma_first_at_unique(line@, ' ', f as int, first_at_idx(line@, ' '));
    }
    let id: u32 = match crate::text::parse_u32_dec(line.substring_char(0, f)) {
        Some(id) => id,
        None => {
            proof {
                assert(line@.subrange(0, f as int) =~= line@.take(f as int));
            }
            return None;
        },
    };
    proof {
        assert(line@.subrange(0, f as int) =~= line@.take(f as int));
    }
    let rest = line.substring_char(f + 1, n);
    proof {
        assert(rest@ =~= line@.skip(f + 1));
    }
    let rn: usize = rest.unicode_len();
    let (front, country) = match crate::text::rfind_sub(rest, ", ") {
        Some(m) => {
            proof {
                lemma_last_match_unique(rest@, ", "@, m as int, last_match_idx(rest@, ", "@));
            }
            (rest.substring_char(0, m), rest.substring_char(m + 2, rn))
        },
        None => match crate::text::rfind_char(rest, ' ') {
            Some(l) => {
                proof {
                    lemma_last_at_unique(rest@, ' ', l as int, last_at_idx(rest@, ' '));
                }
                (rest.substring_char(0, l), rest.substring_char(l + 1, rn))
            },
            None => (rest.substring_char(0, 0), rest),
        },
    };
    proof {
        assert(front@ =~= country_split(rest@).0);
        assert(country@ =~= country_split(rest@).1);
    }
    let (handle, name) = match crate::text::find_sub(front, " - ") {
        Some(_) => parse_handle_and_name(front),
        None => match crate::text::find_char(front, ' ') {
            Some(sp) => {
                proof {
                    lemma_first_at_unique(front@, ' ', sp as int, first_at_idx(front@, ' '));
                }
                (front.substring_char(0, sp).to_owned(), None)
            },
            None => (front.to_owned(), None),
        },
    };
    Some(AutonomousSystemNumber { id, handle, name, country: country.to_owned() })
}

// ---------------------------------------------------------------------------
// The table

/// Relies on std's `Arc::clone`: the clone is the same shared value.
#[verifier::external_body]
pub(crate) fn arc_clone<T>(t: &Arc<T>) -> (r: Arc<T>)
    ensures
        r == *t,
{
    Arc::clone(t)
}

/// The registry table: descriptors keyed by id, built once from the
/// registry file's lines and read-only afterwards.
pub struct AsnDatabase {
    asn_map: HashMap<u32, Arc<AutonomousSystemNumber>>,
}

impl View for AsnDatabase {
    type V = Map<u32, AsnView>;

    closed spec fn view(&self) -> Map<u32, AsnView> {
        self.asn_map@.map_values(|a: Arc<AutonomousSystemNumber>| a.deep_view())
    }
}

/// The table that a sequence of registry lines denotes: each parseable
/// line adds its descriptor under its id, later lines overriding
/// earlier ones; lines that do not parse are skipped.
pub open spec fn asn_map_of(lines: Seq<Seq<char>>) -> Map<u32, AsnView>
    decreases lines.len(),
{
    if lines.len() == 0 {
        Map::<u32, AsnView>::empty()
    } else {
        let m = asn_map_of(lines.drop_last());
        match parse_asn_spec(lines.last()) {
            Some(a) => m.insert(a.id, a),
            None => m,
        }
    }
}

/// Build the registry table from the lines of a registry dump.
pub fn build_asn_database(lines: &Vec<String>) -> (db: AsnDatabase)
    ensures
        db@ == asn_map_of(lines.deep_view()),
{
    let mut asn_map: HashMap<u32, Arc<AutonomousSystemNumber>> = HashMap::new();
    let n: usize = lines.len();
    let mut i: usize = 0;
    proof {
        assert(lines.deep_view().take(0) =~= Seq::<Seq<char>>::empty());
        assert(asn_map@.map_values(
            |a: Arc<AutonomousSystemNumber>| a.deep_view(),
        ) =~= asn_map_of(lines.deep_view().take(0)));
    }
    while i < n
        invariant
            i <= n,
            n == lines@.len(),
            vstd::std_specs::hash::obeys_key_model::<u32>(),
            asn_map@.map_values(|a: Arc<AutonomousSystemNumber>| a.deep_view()) == asn_map_of(
                lines.deep_view().take(i as int),
            ),
        decreases n - i,
    {
        proof {
            assert(lines.deep_view()[i as int] == lines@[i as int]@);
            assert(lines.deep_view().take(i + 1).drop_last() =~= lines.deep_view().take(i as int));
        }
        match parse_autonomous_system_number(lines[i].as_str()) {
            Some(asn) => {
                let ghost prev = asn_map@;
                asn_map.insert(asn.id, Arc::new(asn));
                proof {
                    assert(asn_map@.map_values(
                        |a: Arc<AutonomousSystemNumber>| a.deep_view(),
                    ) =~= asn_map_of(lines.deep_view().take(i + 1)));
                }
            },
            None => {},
        }
        i = i + 1;
    }
    proof {
        assert(lines.deep_view().take(n as int) =~= lines.deep_view());
    }
    AsnDatabase { asn_map }
}

impl AsnDatabase {
    /// The descriptor registered under `id`, shared by reference.
    pub fn lookup(&self, id: u32) -> (r: Option<Arc<AutonomousSystemNumber>>)
        ensures
            match r {
                Some(a) => self@.contains_key(id) && a.deep_view() == self@[id],
                None => !self@.contains_key(id),
            },
    {
        match self.asn_map.get(&id) {
            Some(a) => Some(arc_clone(a)),
            None => None,
        }
    }
}

} // verus!
