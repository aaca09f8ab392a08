//! URL decoding and the parameters of interactive components.
use vstd::prelude::*;
use crate::text::{
    chars_of, is_white, is_white_char, same_chars, string_of, trim_char, trim_char_chars, trim_end_chars,
    trim_start_chars, trimmed,
};

verus! {

/// The value of a hexadecimal digit.
pub open spec fn hex_val(c: char) -> Option<int> {
    if '0' <= c && c <= '9' {
        Some(c as int - 48)
    } else if 'a' <= c && c <= 'f' {
        Some(c as int - 87)
    } else if 'A' <= c && c <= 'F' {
        Some(c as int - 55)
    } else {
        None
    }
}

/// Two characters read as a base-16 number the way `u8::from_str_radix`
/// reads them, which also takes a `+` sign before one digit.
pub open spec fn hex_pair(a: char, b: char) -> Option<u8> {
    if a == '+' {
        match hex_val(b) {
            Some(v) => Some(v as u8),
            None => None,
        }
    } else {
        match (hex_val(a), hex_val(b)) {
            (Some(x), Some(y)) => Some((16 * x + y) as u8),
            _ => None,
        }
    }
}

/// The decoded form of `s`: `%` and two hexadecimal digits stand for the
/// character of that code, `+` for a space; a `%` that starts no such escape
/// is kept with what follows it.
pub open spec fn decoded(s: Seq<char>) -> Seq<char>
    decreases s.len(),
{
    if s.len() == 0 {
        s
    } else if s[0] == '%' {
        if s.len() >= 3 {
            match hex_pair(s[1], s[2]) {
                Some(b) => seq![b as char] + decoded(s.subrange(3, s.len() as int)),
                None => seq!['%', s[1], s[2]] + decoded(s.subrange(3, s.len() as int)),
            }
        } else {
            s
        }
    } else if s[0] == '+' {
        seq![' '] + decoded(s.subrange(1, s.len() as int))
    } else {
        seq![s[0]] + decoded(s.subrange(1, s.len() as int))
    }
}

fn hex_value(c: char) -> (r: Option<u8>)
    ensures
        r matches Some(v) ==> hex_val(c) == Some(v as int),
        r is None ==> hex_val(c) is None,
{
    if '0' <= c && c <= '9' {
        Some(((c as u32) - 48) as u8)
    } else if 'a' <= c && c <= 'f' {
        Some(((c as u32) - 87) as u8)
    } else if 'A' <= c && c <= 'F' {
        Some(((c as u32) - 55) as u8)
    } else {
        None
    }
}

fn hex_byte(a: char, b: char) -> (r: Option<u8>)
    ensures
        r == hex_pair(a, b),
{
    if a == '+' {
        hex_value(b)
    } else {
        match (hex_value(a), hex_value(b)) {
            (Some(x), Some(y)) => Some(16 * x + y),
            _ => None,
        }
    }
}

/// Decodes a percent-encoded text.
pub fn percent_decode_chars(s: &Vec<char>) -> (r: Vec<char>)
    ensures
        r@ == decoded(s@),
{
    let n = s.len();
    let mut out: Vec<char> = Vec::new();
    let mut i: usize = 0;
    assert(s@.subrange(0, n as int) =~= s@);
    while i < n
        invariant
            n == s@.len(),
            i <= n,
            out@ + decoded(s@.subrange(i as int, n as int)) == decoded(s@),
        decreases n - i,
    {
        let ghost rest = s@.subrange(i as int, n as int);
        let c = s[i];
        if c == '%' {
            if n - i >= 3 {
                let h1 = s[i + 1];
                let h2 = s[i + 2];
                assert(rest.subrange(3, rest.len() as int) =~= s@.subrange(i + 3, n as int));
                match hex_byte(h1, h2) {
                    Some(b) => {
                        out.push(b as char);
                    },
                    None => {
                        out.push('%');
                        out.push(h1);
                        out.push(h2);
                    },
                }
                proof {
                    assert(decoded(rest) == (if hex_pair(h1, h2) is Some {
                        seq![hex_pair(h1, h2)->0 as char]
                    } else {
                        seq!['%', h1, h2]
                    }) + decoded(s@.subrange(i + 3, n as int)));
                    assert(out@ + decoded(s@.subrange(i + 3, n as int)) =~= decoded(s@));
                }
                i = i + 3;
            } else {
                while i < n
                    invariant
                        n == s@.len(),
                        i <= n,
                        out@ + s@.subrange(i as int, n as int) == decoded(s@),
                    decreases n - i,
                {
                    out.push(s[i]);
                    assert(s@.subrange(i as int, n as int) =~= seq![s@[i as int]] + s@.subrange(i + 1, n as int));
                    i = i + 1;
                }
                assert(s@.subrange(i as int, n as int) =~= Seq::<char>::empty());
            }
        } else {
            if c == '+' {
                out.push(' ');
            } else {
                out.push(c);
            }
            assert(rest.subrange(1, rest.len() as int) =~= s@.subrange(i + 1, n as int));
            assert(out@ + decoded(s@.subrange(i + 1, n as int)) =~= decoded(s@));
            i = i + 1;
        }
    }
    assert(s@.subrange(n as int, n as int) =~= Seq::<char>::empty());
    assert(out@ =~= decoded(s@));
    out
}

/// Decodes `%XX` escapes and `+` in a URL component.
pub fn percent_decode(input: &str) -> (r: String)
    ensures
        r@ == decoded(input@),
{
    string_of(&percent_decode_chars(&chars_of(input)))
}

/// The map that a list of insertions builds: a later value for a key
/// replaces an earlier one.
pub open spec fn map_of(entries: Seq<(Seq<char>, Seq<char>)>) -> Map<Seq<char>, Seq<char>>
    decreases entries.len(),
{
    if entries.len() == 0 {
        Map::empty()
    } else {
        map_of(entries.drop_last()).insert(entries.last().0, entries.last().1)
    }
}

/// A map from parameter names to values.
pub struct Params {
    entries: Vec<(Vec<char>, Vec<char>)>,
}

/// The texts of a list of entries.
pub open spec fn entry_views(e: Seq<(Vec<char>, Vec<char>)>) -> Seq<(Seq<char>, Seq<char>)> {
    e.map_values(|p: (Vec<char>, Vec<char>)| (p.0@, p.1@))
}

impl View for Params {
    type V = Map<Seq<char>, Seq<char>>;

    closed spec fn view(&self) -> Map<Seq<char>, Seq<char>> {
        map_of(entry_views(self.entries@))
    }
}

impl Params {
    pub fn new() -> (r: Params)
        ensures
            r@ == Map::<Seq<char>, Seq<char>>::empty(),
    {
        let r = Params { entries: Vec::new() };
        assert(entry_views(r.entries@) =~= Seq::<(Seq<char>, Seq<char>)>::empty());
        r
    }

    /// Sets `key` to `value`, replacing an earlier value.
    pub fn insert_chars(&mut self, key: Vec<char>, value: Vec<char>)
        ensures
            final(self)@ == old(self)@.insert(key@, value@),
    {
        let ghost k = key@;
        let ghost v = value@;
        proof {
            assert(entry_views(self.entries@.push((key, value))) =~= entry_views(self.entries@).push((k, v)));
            assert(entry_views(self.entries@).push((k, v)).drop_last() =~= entry_views(self.entries@));
        }
        self.entries.push((key, value));
    }

    /// Sets `key` to `value`, replacing an earlier value.
    pub fn insert(&mut self, key: &str, value: &str)
        ensures
            final(self)@ == old(self)@.insert(key@, value@),
    {
        self.insert_chars(chars_of(key), chars_of(value));
    }

    /// The value of `key`, if it has one.
    pub fn get(&self, key: &str) -> (r: Option<String>)
        ensures
            r matches Some(v) ==> self@.contains_key(key@) && v@ == self@[key@],
            r is None ==> !self@.contains_key(key@),
    {
        let k = chars_of(key);
        let mut j: usize = self.entries.len();
        let ghost es = entry_views(self.entries@);
        while j > 0
            invariant
                j <= self.entries@.len(),
                es == entry_views(self.entries@),
                es.len() == self.entries@.len(),
                k@ == key@,
                forall|m: int| j <= m < es.len() ==> (#[trigger] es[m]).0 != k@,
            decreases j,
        {
            assert(es[j - 1] == (self.entries@[j - 1].0@, self.entries@[j - 1].1@));
            if same_chars(&self.entries[j - 1].0, &k) {
                proof {
                    lemma_map_of_lookup(es, k@, j - 1);
                    assert(self@ == map_of(es));
                    assert(k@ == key@);
                }
                let v = string_of(&self.entries[j - 1].1);
                assert(v@ == es[j - 1].1);
                return Some(v);
            }
            j = j - 1;
        }
        proof {
            lemma_map_of_absent(es, k@);
        }
        None
    }
}

/// The value of a key is the one of its last insertion.
pub proof fn lemma_map_of_lookup(es: Seq<(Seq<char>, Seq<char>)>, k: Seq<char>, m: int)
    requires
        0 <= m < es.len(),
        es[m].0 == k,
        forall|m2: int| m < m2 < es.len() ==> (#[trigger] es[m2]).0 != k,
    ensures
        map_of(es).contains_key(k),
        map_of(es)[k] == es[m].1,
    decreases es.len(),
{
    if m < es.len() - 1 {
        lemma_map_of_lookup(es.drop_last(), k, m);
        assert(es.last() == es[es.len() - 1]);
    }
}

/// A key never inserted has no value.
pub proof fn lemma_map_of_absent(es: Seq<(Seq<char>, Seq<char>)>, k: Seq<char>)
    requires
        forall|m: int| 0 <= m < es.len() ==> (#[trigger] es[m]).0 != k,
    ensures
        !map_of(es).contains_key(k),
    decreases es.len(),
{
    if es.len() > 0 {
        lemma_map_of_absent(es.drop_last(), k);
        assert(es.last() == es[es.len() - 1]);
    }
}

/// Where the parameter scanner stands after part of its input.
pub ghost struct ScanState {
    pub key: Seq<char>,
    pub value: Seq<char>,
    pub in_key: bool,
    pub in_quotes: bool,
    pub escape_next: bool,
    pub params: Map<Seq<char>, Seq<char>>,
}

pub open spec fn scan_state(
    key: Seq<char>,
    value: Seq<char>,
    in_key: bool,
    in_quotes: bool,
    escape_next: bool,
    params: Map<Seq<char>, Seq<char>>,
) -> ScanState {
    ScanState { key, value, in_key, in_quotes, escape_next, params }
}

/// One character of `key="value" key2=value2` input. A backslash takes the
/// next character as it is; `=` ends a key; a quote opens or closes a value,
/// and closing it records the pair; white space ends an unquoted value and
/// records the pair.
pub open spec fn scan_step(st: ScanState, c: char) -> ScanState {
    if st.escape_next {
        if st.in_key {
            scan_state(st.key.push(c), st.value, st.in_key, st.in_quotes, false, st.params)
        } else {
            scan_state(st.key, st.value.push(c), st.in_key, st.in_quotes, false, st.params)
        }
    } else if c == '\\' {
        scan_state(st.key, st.value, st.in_key, st.in_quotes, true, st.params)
    } else if st.in_key {
        if c == '=' {
            scan_state(st.key, st.value, false, st.in_quotes, false, st.params)
        } else if !is_white(c) {
            scan_state(st.key.push(c), st.value, true, st.in_quotes, false, st.params)
        } else {
            st
        }
    } else if c == '"' {
        if st.in_quotes && st.key.len() > 0 {
            scan_state(Seq::empty(), Seq::empty(), true, false, false, st.params.insert(st.key, st.value))
        } else {
            scan_state(st.key, st.value, false, !st.in_quotes, false, st.params)
        }
    } else if st.in_quotes || !is_white(c) {
        scan_state(st.key, st.value.push(c), false, st.in_quotes, false, st.params)
    } else if st.value.len() > 0 {
        scan_state(Seq::empty(), Seq::empty(), true, st.in_quotes, false, st.params.insert(st.key, st.value))
    } else {
        st
    }
}

/// The scanner's state after all of `cs`.
pub open spec fn scan_all(cs: Seq<char>) -> ScanState
    decreases cs.len(),
{
    if cs.len() == 0 {
        scan_state(Seq::empty(), Seq::empty(), true, false, false, Map::empty())
    } else {
        scan_step(scan_all(cs.drop_last()), cs.last())
    }
}

/// The parameters of `key="value"` text: the text is trimmed of white space,
/// of quotes, and of white space again; a pair still open at its end is
/// recorded where both its key and its value are non-empty.
pub open spec fn params_of(s: Seq<char>) -> Map<Seq<char>, Seq<char>> {
    let cleaned = trimmed(trim_char(trimmed(s), '"'));
    let st = scan_all(cleaned);
    if cleaned.len() == 0 {
        Map::empty()
    } else if st.key.len() > 0 && st.value.len() > 0 {
        st.params.insert(st.key, st.value)
    } else {
        st.params
    }
}

/// Parses the parameters of an interactive component: `key1="value1" key2=value2`.
pub fn parse_interactive_params(params_str: &str) -> (r: Params)
    ensures
        r@ == params_of(params_str@),
{
    let mut params = Params::new();
    let raw = chars_of(params_str);
    let t1 = trim_end_chars(&trim_start_chars(&raw));
    let t2 = trim_char_chars(&t1, '"');
    let cleaned = trim_end_chars(&trim_start_chars(&t2));
    assert(cleaned@ == trimmed(trim_char(trimmed(params_str@), '"')));
    if cleaned.len() == 0 {
        return params;
    }
    let mut key: Vec<char> = Vec::new();
    let mut value: Vec<char> = Vec::new();
    let mut in_key = true;
    let mut in_quotes = false;
    let mut escape_next = false;
    let mut i: usize = 0;
    while i < cleaned.len()
        invariant
            i <= cleaned@.len(),
            scan_all(cleaned@.take(i as int)) == scan_state(key@, value@, in_key, in_quotes, escape_next, params@),
        decreases cleaned@.len() - i,
    {
        let c = cleaned[i];
        assert(cleaned@.take(i + 1).drop_last() =~= cleaned@.take(i as int));
        if escape_next {
            if in_key {
                key.push(c);
            } else {
                value.push(c);
            }
            escape_next = false;
        } else if c == '\\' {
            escape_next = true;
        } else if in_key {
            if c == '=' {
                in_key = false;
            } else if !is_white_char(c) {
                key.push(c);
            }
        } else if c == '"' {
            in_quotes = !in_quotes;
            if !in_quotes && key.len() > 0 {
                params.insert_chars(key, value);
                key = Vec::new();
                value = Vec::new();
                in_key = true;
            }
        } else if in_quotes || !is_white_char(c) {
            value.push(c);
        } else if value.len() > 0 {
            params.insert_chars(key, value);
            key = Vec::new();
            value = Vec::new();
            in_key = true;
        }
        proof {
            assert(key@ == scan_all(cleaned@.take(i + 1)).key);
        }
        i = i + 1;
    }
    assert(cleaned@.take(i as int) =~= cleaned@);
    if key.len() > 0 && value.len() > 0 {
        params.insert_chars(key, value);
    }
    params
}

} // verus!
