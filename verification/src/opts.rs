//! Runtime options and the textual forms backends and dictionaries are
//! configured in: `name:host` for a backend, `name:key=value,key=value` for a
//! dictionary.

use crate::backend::Backend;
use crate::dictionary::{DictEntry, Dictionary};
use vstd::prelude::*;
use vstd::string::StrSliceExecFns;
use vstd::string::StringExecFns;

verus! {

/// Why a configuration string was rejected.
#[derive(Clone, Copy, PartialEq, Eq, Structural, Debug)]
pub enum OptsError {
    /// A `KEY:value` string holds no `:`.
    MissingColon,
    /// A `KEY=value` item holds no `=`.
    MissingEquals,
}

impl OptsError {
    /// The rejection in words.
    pub fn message(&self) -> (r: &'static str)
        ensures
            *self is MissingColon ==> r@ == "invalid KEY:value: no `:` found"@,
            *self is MissingEquals ==> r@ == "invalid KEY=value: no `=` found"@,
    {
        match self {
            OptsError::MissingColon => "invalid KEY:value: no `:` found",
            OptsError::MissingEquals => "invalid KEY=value: no `=` found",
        }
    }
}

/// The position of the first occurrence of `c` in `s`, if any.
pub open spec fn spec_find_char(s: Seq<char>, c: char) -> Option<int>
    decreases s.len(),
{
    if s.len() == 0 {
        None
    } else if s[0] == c {
        Some(0int)
    } else {
        match spec_find_char(s.drop_first(), c) {
            Some(i) => Some(i + 1),
            None => None,
        }
    }
}

/// What a found position means: in range, the character there, and the first
/// such position.
pub proof fn lemma_find_char_props(s: Seq<char>, c: char)
    ensures
        spec_find_char(s, c) matches Some(i) ==> 0 <= i < s.len() && s[i] == c && (forall|k: int|
            0 <= k < i ==> s[k] != c),
    decreases s.len(),
{
    if s.len() > 0 && s[0] != c {
        lemma_find_char_props(s.drop_first(), c);
        match spec_find_char(s.drop_first(), c) {
            Some(j) => {
                assert forall|k: int| 0 <= k < j + 1 implies s[k] != c by {
                    if k > 0 {
                        assert(s.drop_first()[k - 1] == s[k]);
                    }
                }
            },
            None => {},
        }
    }
}

/// A first occurrence at `i` decides the search.
pub proof fn lemma_find_char_at(s: Seq<char>, c: char, i: int)
    requires
        0 <= i < s.len(),
        s[i] == c,
        forall|k: int| 0 <= k < i ==> s[k] != c,
    ensures
        spec_find_char(s, c) == Some(i),
    decreases i,
{
    if i > 0 {
        let s1 = s.drop_first();
        assert(s1[i - 1] == c);
        assert forall|k: int| 0 <= k < i - 1 implies s1[k] != c by {
            assert(s1[k] == s[k + 1]);
        }
        lemma_find_char_at(s1, c, i - 1);
    }
}

/// No occurrence anywhere decides the search.
pub proof fn lemma_find_char_none(s: Seq<char>, c: char)
    requires
        forall|k: int| 0 <= k < s.len() ==> s[k] != c,
    ensures
        spec_find_char(s, c) is None,
    decreases s.len(),
{
    if s.len() > 0 {
        let s1 = s.drop_first();
        assert forall|k: int| 0 <= k < s1.len() implies s1[k] != c by {
            assert(s1[k] == s[k + 1]);
        }
        lemma_find_char_none(s1, c);
    }
}

/// The position of the first occurrence of `c` in `s`, if any.
fn find_char(s: &str, c: char) -> (r: Option<usize>)
    ensures
        r matches Some(i) ==> spec_find_char(s@, c) == Some(i as int),
        r is None ==> spec_find_char(s@, c) is None,
{
    let n = s.unicode_len();
    let mut i: usize = 0;
    while i < n
        invariant
            i <= n,
            n == s@.len(),
            forall|k: int| 0 <= k < i ==> s@[k] != c,
        decreases n - i,
    {
        if s.get_char(i) == c {
            proof {
                lemma_find_char_at(s@, c, i as int);
            }
            return Some(i);
        }
        i = i + 1;
    }
    proof {
        lemma_find_char_none(s@, c);
    }
    None
}

/// Splits `s` at its first `:` into a key and a value; a string without `:`
/// is rejected.
pub fn parse_key_value(s: &str) -> (r: Result<(String, String), OptsError>)
    ensures
        r is Ok <==> spec_find_char(s@, ':') is Some,
        r matches Ok((k, v)) ==> {
            let i = spec_find_char(s@, ':').unwrap();
            k@ == s@.take(i) && v@ == s@.skip(i + 1)
        },
        r matches Err(e) ==> e == OptsError::MissingColon,
{
    let n = s.unicode_len();
    match find_char(s, ':') {
        Some(i) => {
            proof {
                lemma_find_char_props(s@, ':');
            }
            let key = s.substring_char(0, i).to_owned();
            let value = s.substring_char(i + 1, n).to_owned();
            proof {
                assert(key@ =~= s@.take(i as int));
                assert(value@ =~= s@.skip(i + 1));
            }
            Ok((key, value))
        },
        None => Err(OptsError::MissingColon),
    }
}

/// Parses a backend in `name:host` form.
pub fn parse_backend(s: &str) -> (r: Result<Backend, OptsError>)
    ensures
        r is Ok <==> spec_find_char(s@, ':') is Some,
        r matches Ok(b) ==> {
            let i = spec_find_char(s@, ':').unwrap();
            b.name@ == s@.take(i) && b.address@ == s@.skip(i + 1)
        },
        r matches Err(e) ==> e == OptsError::MissingColon,
{
    match parse_key_value(s) {
        Ok((name, address)) => Ok(Backend { name, address }),
        Err(e) => Err(OptsError::MissingColon),
    }
}

/// The entries encoded by a `key=value,key=value` item list: each item split
/// at its first `=`; an item without `=` rejects the whole list.
pub open spec fn spec_dict_items(s: Seq<char>) -> Option<Seq<(Seq<char>, Seq<char>)>>
    decreases s.len(),
    via spec_dict_items_decreases
{
    match spec_find_char(s, ',') {
        Some(j) => {
            let head = s.take(j);
            match spec_find_char(head, '=') {
                Some(k) => match spec_dict_items(s.skip(j + 1)) {
                    Some(rest) => Some(seq![(head.take(k), head.skip(k + 1))] + rest),
                    None => None,
                },
                None => None,
            }
        },
        None => match spec_find_char(s, '=') {
            Some(k) => Some(seq![(s.take(k), s.skip(k + 1))]),
            None => None,
        },
    }
}

#[via_fn]
proof fn spec_dict_items_decreases(s: Seq<char>) {
    lemma_find_char_props(s, ',');
}

/// Parses a `key=value,key=value` item list into dictionary entries.
fn parse_items(s: &str) -> (r: Result<Vec<DictEntry>, OptsError>)
    ensures
        r matches Ok(v) ==> spec_dict_items(s@) matches Some(items) && Seq::new(
            v@.len(),
            |i: int| v@[i]@,
        ) == items,
        r is Err <==> spec_dict_items(s@) is None,
        r matches Err(e) ==> e == OptsError::MissingEquals,
    decreases s@.len(),
{
    let n = s.unicode_len();
    proof {
        lemma_find_char_props(s@, ',');
    }
    match find_char(s, ',') {
        Some(j) => {
            let head = s.substring_char(0, j);
            let tail = s.substring_char(j + 1, n);
            proof {
                assert(head@ =~= s@.take(j as int));
                assert(tail@ =~= s@.skip(j + 1));
                lemma_find_char_props(head@, '=');
            }
            let hn = head.unicode_len();
            match find_char(head, '=') {
                Some(k) => {
                    let key = head.substring_char(0, k).to_owned();
                    let value = head.substring_char(k + 1, hn).to_owned();
                    proof {
                        assert(key@ =~= s@.take(j as int).take(k as int));
                        assert(value@ =~= s@.take(j as int).skip(k + 1));
                    }
                    match parse_items(tail) {
                        Ok(mut rest) => {
                            let mut out: Vec<DictEntry> = Vec::new();
                            out.push(DictEntry { key, value });
                            out.append(&mut rest);
                            proof {
                                let items = spec_dict_items(s@).unwrap();
                                assert(Seq::new(out@.len(), |i: int| out@[i]@) =~= items);
                            }
                            Ok(out)
                        },
                        Err(e) => Err(e),
                    }
                },
                None => Err(OptsError::MissingEquals),
            }
        },
        None => {
            proof {
                lemma_find_char_props(s@, '=');
            }
            match find_char(s, '=') {
                Some(k) => {
                    let key = s.substring_char(0, k).to_owned();
                    let value = s.substring_char(k + 1, n).to_owned();
                    let mut out: Vec<DictEntry> = Vec::new();
                    out.push(DictEntry { key, value });
                    proof {
                        assert(key@ =~= s@.take(k as int));
                        assert(value@ =~= s@.skip(k + 1));
                        let items = spec_dict_items(s@).unwrap();
                        assert(Seq::new(out@.len(), |i: int| out@[i]@) =~= items);
                    }
                    Ok(out)
                },
                None => Err(OptsError::MissingEquals),
            }
        },
    }
}

/// Parses a dictionary in `name:key=value,key=value` form. A missing `:`
/// rejects the string; so does an item without `=`.
pub fn parse_dictionary(s: &str) -> (r: Result<Dictionary, OptsError>)
    ensures
        match spec_find_char(s@, ':') {
            None => r == Err::<Dictionary, OptsError>(OptsError::MissingColon),
            Some(i) => match spec_dict_items(s@.skip(i + 1)) {
                None => r == Err::<Dictionary, OptsError>(OptsError::MissingEquals),
                Some(items) => r matches Ok(d) && (d@.name == s@.take(i) && d@.entries == items),
            },
        },
{
    let (name, rest) = match parse_key_value(s) {
        Ok(kv) => kv,
        Err(e) => {
            return Err(e);
        },
    };
    match parse_items(rest.as_str()) {
        Ok(entries) => {
            let d = Dictionary { name, entries };
            proof {
                let i = spec_find_char(s@, ':').unwrap();
                let items = spec_dict_items(s@.skip(i + 1)).unwrap();
                assert(d@.entries =~= items);
            }
            Ok(d)
        },
        Err(e) => Err(e),
    }
}

/// The runtime options: the module to load, the listener, TLS material, the
/// watch switch, an optional configuration file, and the configured backends
/// and dictionaries.
pub struct Opts {
    /// Path of the WebAssembly module to load.
    pub wasm: String,
    /// Port to listen on.
    pub port: u16,
    /// Path of a TLS certificate, when serving TLS.
    pub tls_cert: Option<String>,
    /// Path of a TLS private key, when serving TLS.
    pub tls_key: Option<String>,
    /// Whether to reload the module when its file changes.
    pub watch: bool,
    /// Path of a configuration file to merge options from.
    pub config_file: Option<String>,
    /// The configured backends.
    pub backends: Option<Vec<Backend>>,
    /// The configured dictionaries.
    pub dictionaries: Option<Vec<Dictionary>>,
}

impl Opts {
    /// The options before any argument: the default module path and port,
    /// no TLS, no watch, nothing configured.
    pub fn defaults() -> (r: Opts)
        ensures
            r.wasm@ == "bin/main.wasm"@,
            r.port == 3000,
            r.tls_cert is None,
            r.tls_key is None,
            !r.watch,
            r.config_file is None,
            r.backends is None,
            r.dictionaries is None,
    {
        Opts {
            wasm: <String as StringExecFns>::from_str("bin/main.wasm"),
            port: 3000,
            tls_cert: None,
            tls_key: None,
            watch: false,
            config_file: None,
            backends: None,
            dictionaries: None,
        }
    }
}

} // verus!
