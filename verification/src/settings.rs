//! The preferences file: `key=value` lines, keys and values trimmed; a later
//! line for a key replaces an earlier one.

use vstd::prelude::*;
use crate::assoc::{map_of, lemma_map_of_dom, lemma_map_of_unique_lookup, lemma_map_of_update};
use crate::text::{
    chars_of, find_char, is_ws, lemma_index_of, lemma_split_lines_cons, lemma_trimmed_last_not_ws,
    line_at, push_str_chars, split_lines, split_once, string_of_range, strip_cr, trim,
    trim_bounds,
};

verus! {

/// The setting one line gives: the trimmed text before the first `=` as the
/// key, the trimmed text after it as the value.
pub open spec fn setting_line(line: Seq<char>) -> Option<(Seq<char>, Seq<char>)> {
    match split_once(line, '=') {
        Some((key, value)) => Some((trim(key), trim(value))),
        None => None,
    }
}

/// The settings read from a sequence of lines; lines without `=` are skipped.
pub open spec fn settings_of_lines(lines: Seq<Seq<char>>) -> Map<Seq<char>, Seq<char>>
    decreases lines.len(),
{
    if lines.len() == 0 {
        Map::empty()
    } else {
        let m = settings_of_lines(lines.drop_last());
        match setting_line(lines.last()) {
            Some((key, value)) => m.insert(key, value),
            None => m,
        }
    }
}

/// The settings read from a whole text.
pub open spec fn settings_of_text(text: Seq<char>) -> Map<Seq<char>, Seq<char>> {
    settings_of_lines(split_lines(text))
}

/// Key/value settings as read from a preferences file.
pub struct Settings {
    entries: Vec<(String, String)>,
}

impl View for Settings {
    type V = Map<Seq<char>, Seq<char>>;

    closed spec fn view(&self) -> Map<Seq<char>, Seq<char>> {
        map_of(self.entries_view())
    }
}

impl Settings {
    /// The entries as plain values.
    pub closed spec fn entries_view(&self) -> Seq<(Seq<char>, Seq<char>)> {
        self.entries@.map_values(|e: (String, String)| (e.0@, e.1@))
    }

    /// No key occurs twice.
    pub closed spec fn wf(&self) -> bool {
        forall|a: int, b: int|
            0 <= a < b < self.entries@.len() ==> self.entries@[a].0@ != self.entries@[b].0@
    }

    fn position(&self, key: &String) -> (r: Option<usize>)
        requires
            self.wf(),
        ensures
            match r {
                Some(i) => i < self.entries@.len() && self.entries@[i as int].0@ == key@,
                None => forall|i: int|
                    0 <= i < self.entries@.len() ==> self.entries@[i].0@ != key@,
            },
    {
        let mut i: usize = 0;
        while i < self.entries.len()
            invariant
                i <= self.entries@.len(),
                forall|k: int| 0 <= k < i ==> self.entries@[k].0@ != key@,
            decreases self.entries@.len() - i,
        {
            if self.entries[i].0 == *key {
                return Some(i);
            }
            i = i + 1;
        }
        None
    }

    fn insert(&mut self, key: String, value: String)
        requires
            old(self).wf(),
        ensures
            final(self).wf(),
            final(self)@ == old(self)@.insert(key@, value@),
    {
        let ghost es = self.entries_view();
        match self.position(&key) {
            Some(i) => {
                let ghost v = value@;
                self.entries.set(i, (key, value));
                proof {
                    lemma_map_of_update(es, i as int, v);
                    assert(self.entries_view() =~= es.update(i as int, (es[i as int].0, v)));
                }
            },
            None => {
                self.entries.push((key, value));
                proof {
                    assert(self.entries_view() =~= es.push((key@, value@)));
                    assert(self.entries_view().drop_last() =~= es);
                }
            },
        }
    }

    /// Reads settings from text: every line holding `=` gives the trimmed
    /// text before the first `=` as key and the trimmed text after it as
    /// value; a later line for a key replaces an earlier one.
    pub fn from_text(text: &str) -> (r: Settings)
        ensures
            r.wf(),
            r@ == settings_of_text(text@),
    {
        let s = chars_of(text);
        let mut r = Settings { entries: Vec::new() };
        assert(r.entries_view() =~= Seq::<(Seq<char>, Seq<char>)>::empty());
        let ghost mut seen: Seq<Seq<char>> = Seq::empty();
        let mut pos: usize = 0;
        proof {
            crate::text::lemma_split_lines_from_start(s@);
        }
        while pos < s.len()
            invariant
                pos <= s.len(),
                r.wf(),
                split_lines(s@) == seen + split_lines(s@.skip(pos as int)),
                r@ == settings_of_lines(seen),
            decreases s.len() - pos,
        {
            let (end, next) = line_at(&s, pos);
            let ghost line = s@.subrange(pos as int, end as int);
            let eq = find_char(&s, pos, end, '=');
            if eq < end {
                assert(line.take(eq - pos) =~= s@.subrange(pos as int, eq as int));
                assert(line.skip(eq - pos + 1) =~= s@.subrange(eq + 1, end as int));
                let (a, b) = trim_bounds(&s, pos, eq);
                let (c, d) = trim_bounds(&s, eq + 1, end);
                r.insert(string_of_range(&s, a, b), string_of_range(&s, c, d));
            }
            proof {
                assert(seen.push(line).drop_last() =~= seen);
                assert(split_lines(s@) =~= seen.push(line) + split_lines(s@.skip(next as int)));
                seen = seen.push(line);
            }
            pos = next;
        }
        proof {
            crate::text::lemma_split_lines_from_start(s@);
            assert(seen + Seq::<Seq<char>>::empty() =~= seen);
        }
        r
    }

    /// The value given for a key, if any.
    pub fn get(&self, key: &str) -> (r: Option<String>)
        requires
            self.wf(),
        ensures
            match r {
                Some(v) => self@.contains_key(key@) && v@ == self@[key@],
                None => !self@.contains_key(key@),
            },
    {
        let k = key.to_owned();
        let ghost es = self.entries_view();
        proof {
            lemma_map_of_dom(es, key@);
        }
        match self.position(&k) {
            Some(i) => {
                proof {
                    lemma_map_of_unique_lookup(es, i as int);
                }
                Some(self.entries[i].1.clone())
            },
            None => {
                assert forall|i: int| 0 <= i < es.len() implies es[i].0 != key@ by {
                    assert(es[i].0 == self.entries@[i].0@);
                }
                None
            },
        }
    }

    /// A yes/no setting: when the key is present it is on exactly when its
    /// value is `true`; when absent, `current` stands.
    pub fn flag(&self, key: &str, current: bool) -> (on: bool)
        requires
            self.wf(),
        ensures
            on == if self@.contains_key(key@) {
                self@[key@] == "true"@
            } else {
                current
            },
    {
        match self.get(key) {
            Some(v) => {
                let t = "true".to_owned();
                v == t
            },
            None => current,
        }
    }
}


/// The text of a yes/no setting.
pub open spec fn bool_text(b: bool) -> Seq<char> {
    if b {
        "true"@
    } else {
        "false"@
    }
}

/// One `key=value` line, without its line ending.
pub open spec fn setting_text(key: Seq<char>, value: Seq<char>) -> Seq<char> {
    key + seq!['='] + value
}

/// The preferences file: night mode, zoom (as text) and two-page mode, one
/// line each.
pub open spec fn preferences_text_of(dark_mode: bool, zoom: Seq<char>, dual_page: bool) -> Seq<
    char,
> {
    setting_text("dark_mode"@, bool_text(dark_mode)) + seq!['\n'] + setting_text("zoom"@, zoom)
        + seq!['\n'] + setting_text("dual_page_mode"@, bool_text(dual_page)) + seq!['\n']
}

/// The text of the preferences file for these settings; the zoom comes as
/// the text to write for it.
pub fn preferences_text(dark_mode: bool, zoom: &str, dual_page: bool) -> (text: String)
    ensures
        text@ == preferences_text_of(dark_mode, zoom@, dual_page),
{
    let mut text = String::new();
    push_str_chars(&mut text, "dark_mode");
    text.push('=');
    push_str_chars(&mut text, if dark_mode {
        "true"
    } else {
        "false"
    });
    text.push('\n');
    push_str_chars(&mut text, "zoom");
    text.push('=');
    push_str_chars(&mut text, zoom);
    text.push('\n');
    push_str_chars(&mut text, "dual_page_mode");
    text.push('=');
    push_str_chars(&mut text, if dual_page {
        "true"
    } else {
        "false"
    });
    text.push('\n');
    assert(text@ =~= preferences_text_of(dark_mode, zoom@, dual_page));
    text
}

/// Text that trimming leaves as it is and that holds no line break.
pub open spec fn is_plain_value(v: Seq<char>) -> bool {
    &&& forall|i: int| 0 <= i < v.len() ==> v[i] != '\n'
    &&& trim(v) == v
}

/// Text that neither starts nor ends with whitespace is its own trim.
proof fn lemma_trim_unchanged(s: Seq<char>)
    requires
        s.len() > 0,
        !is_ws(s[0]),
        !is_ws(s.last()),
    ensures
        trim(s) == s,
{
}

/// A `key=value` line reads back as that key and value, and holds no line
/// break and no trailing carriage return.
proof fn lemma_setting_line_reads_back(key: Seq<char>, value: Seq<char>)
    requires
        key.len() > 0,
        forall|i: int| 0 <= i < key.len() ==> key[i] != '=' && key[i] != '\n',
        trim(key) == key,
        is_plain_value(value),
    ensures
        setting_line(setting_text(key, value)) == Some((key, value)),
        forall|i: int|
            0 <= i < setting_text(key, value).len() ==> setting_text(key, value)[i] != '\n',
        strip_cr(setting_text(key, value)) == setting_text(key, value),
{
    let l = setting_text(key, value);
    assert forall|i: int| 0 <= i < key.len() implies l[i] != '=' by {
        assert(l[i] == key[i]);
    }
    assert(l[key.len() as int] == '=');
    lemma_index_of(l, '=', key.len() as int);
    assert(l.take(key.len() as int) =~= key);
    assert(l.skip(key.len() as int + 1) =~= value);
    assert forall|i: int| 0 <= i < l.len() implies l[i] != '\n' by {
        if i < key.len() {
            assert(l[i] == key[i]);
        } else if i > key.len() {
            assert(l[i] == value[i - key.len() - 1]);
        }
    }
    if value.len() > 0 {
        lemma_trimmed_last_not_ws(value);
        assert(l.last() == value.last());
        assert(l.last() != '\r') by {
            assert(is_ws('\r'));
        }
    }
}

/// Three lines without line breaks or a trailing carriage return, each ended
/// by a line feed, split back into exactly those three lines.
proof fn lemma_three_lines(l1: Seq<char>, l2: Seq<char>, l3: Seq<char>)
    requires
        forall|i: int| 0 <= i < l1.len() ==> l1[i] != '\n',
        forall|i: int| 0 <= i < l2.len() ==> l2[i] != '\n',
        forall|i: int| 0 <= i < l3.len() ==> l3[i] != '\n',
        strip_cr(l1) == l1,
        strip_cr(l2) == l2,
        strip_cr(l3) == l3,
    ensures
        split_lines(l1 + seq!['\n'] + l2 + seq!['\n'] + l3 + seq!['\n']) == seq![l1, l2, l3],
{
    let t3 = l3 + seq!['\n'];
    let t2 = l2 + seq!['\n'] + t3;
    lemma_split_lines_cons(l3, Seq::<char>::empty());
    assert(l3 + seq!['\n'] + Seq::<char>::empty() =~= t3);
    assert(split_lines(Seq::<char>::empty()) =~= Seq::<Seq<char>>::empty());
    lemma_split_lines_cons(l2, t3);
    lemma_split_lines_cons(l1, t2);
    assert(l1 + seq!['\n'] + l2 + seq!['\n'] + l3 + seq!['\n'] =~= l1 + seq!['\n'] + t2);
    assert(split_lines(l1 + seq!['\n'] + t2) =~= seq![l1, l2, l3]);
}

/// Three lines that each hold a setting read as the map that inserts their
/// settings in order.
proof fn lemma_three_settings(
    l1: Seq<char>,
    l2: Seq<char>,
    l3: Seq<char>,
    e1: (Seq<char>, Seq<char>),
    e2: (Seq<char>, Seq<char>),
    e3: (Seq<char>, Seq<char>),
)
    requires
        setting_line(l1) == Some(e1),
        setting_line(l2) == Some(e2),
        setting_line(l3) == Some(e3),
    ensures
        settings_of_lines(seq![l1, l2, l3]) == Map::<Seq<char>, Seq<char>>::empty().insert(
            e1.0,
            e1.1,
        ).insert(e2.0, e2.1).insert(e3.0, e3.1),
{
    let lines = seq![l1, l2, l3];
    assert(lines.drop_last() =~= seq![l1, l2]);
    assert(seq![l1, l2].drop_last() =~= seq![l1]);
    assert(seq![l1].drop_last() =~= Seq::<Seq<char>>::empty());
    let m0 = settings_of_lines(Seq::<Seq<char>>::empty());
    assert(m0 == Map::<Seq<char>, Seq<char>>::empty());
    assert(seq![l1].last() == l1);
    assert(settings_of_lines(seq![l1]) == m0.insert(e1.0, e1.1));
    assert(seq![l1, l2].last() == l2);
    assert(settings_of_lines(seq![l1, l2]) == m0.insert(e1.0, e1.1).insert(e2.0, e2.1));
    assert(lines.last() == l3);
}

/// Reading a `key=value` line trims both sides: the key is the text before
/// the first `=` without the whitespace around it, the value is all the
/// text after that `=` without the whitespace around it, whatever spaces
/// the line holds (so `dark_mode = true` reads as `dark_mode` and `true`).
pub proof fn law_setting_line_trims(key: Seq<char>, value: Seq<char>)
    requires
        forall|i: int| 0 <= i < key.len() ==> key[i] != '=',
    ensures
        setting_line(key + seq!['='] + value) == Some((trim(key), trim(value))),
{
    let l = key + seq!['='] + value;
    assert forall|i: int| 0 <= i < key.len() implies l[i] != '=' by {
        assert(l[i] == key[i]);
    }
    assert(l[key.len() as int] == '=');
    lemma_index_of(l, '=', key.len() as int);
    assert(l.take(key.len() as int) =~= key);
    assert(l.skip(key.len() as int + 1) =~= value);
}

/// A preferences file of one `key=value` line holds exactly one setting:
/// the trimmed key with the trimmed value.
pub proof fn law_settings_file_trims(key: Seq<char>, value: Seq<char>)
    requires
        forall|i: int| 0 <= i < key.len() ==> key[i] != '=' && key[i] != '\n',
        forall|i: int| 0 <= i < value.len() ==> value[i] != '\n',
        value.len() == 0 || value.last() != '\r',
    ensures
        settings_of_text(key + seq!['='] + value + seq!['\n']) == Map::<
            Seq<char>,
            Seq<char>,
        >::empty().insert(trim(key), trim(value)),
{
    let l = key + seq!['='] + value;
    law_setting_line_trims(key, value);
    assert forall|i: int| 0 <= i < l.len() implies l[i] != '\n' by {
        if i < key.len() {
            assert(l[i] == key[i]);
        } else if i > key.len() {
            assert(l[i] == value[i - key.len() - 1]);
        }
    }
    if value.len() > 0 {
        assert(l.last() == value.last());
    }
    assert(strip_cr(l) == l);
    lemma_split_lines_cons(l, Seq::<char>::empty());
    assert(l + seq!['\n'] + Seq::<char>::empty() =~= l + seq!['\n']);
    assert(split_lines(Seq::<char>::empty()) =~= Seq::<Seq<char>>::empty());
    let lines = split_lines(l + seq!['\n']);
    assert(lines =~= seq![l]);
    assert(lines.drop_last() =~= Seq::<Seq<char>>::empty());
    assert(lines.last() == l);
    assert(settings_of_lines(lines.drop_last()) == Map::<Seq<char>, Seq<char>>::empty());
    assert(settings_of_lines(lines) == Map::<Seq<char>, Seq<char>>::empty().insert(
        trim(key),
        trim(value),
    ));
}

/// Writing the preferences and reading the file back gives each setting as
/// written: night mode and two-page mode read back as the same flags, and
/// the zoom text as written (when it holds no line break and no whitespace
/// at either end).
pub proof fn law_preferences_read_back(dark_mode: bool, zoom: Seq<char>, dual_page: bool)
    requires
        is_plain_value(zoom),
    ensures
        settings_of_text(preferences_text_of(dark_mode, zoom, dual_page)).contains_key(
            "dark_mode"@,
        ),
        (settings_of_text(preferences_text_of(dark_mode, zoom, dual_page))["dark_mode"@]
            == "true"@) == dark_mode,
        settings_of_text(preferences_text_of(dark_mode, zoom, dual_page)).contains_key(
            "dual_page_mode"@,
        ),
        (settings_of_text(preferences_text_of(dark_mode, zoom, dual_page))["dual_page_mode"@]
            == "true"@) == dual_page,
        settings_of_text(preferences_text_of(dark_mode, zoom, dual_page)).contains_key("zoom"@),
        settings_of_text(preferences_text_of(dark_mode, zoom, dual_page))["zoom"@] == zoom,
{
    reveal_strlit("dark_mode");
    reveal_strlit("zoom");
    reveal_strlit("dual_page_mode");
    reveal_strlit("true");
    reveal_strlit("false");
    let k1 = "dark_mode"@;
    let k2 = "zoom"@;
    let k3 = "dual_page_mode"@;
    let v1 = bool_text(dark_mode);
    let v3 = bool_text(dual_page);
    lemma_trim_unchanged(k1);
    lemma_trim_unchanged(k2);
    lemma_trim_unchanged(k3);
    lemma_trim_unchanged("true"@);
    lemma_trim_unchanged("false"@);
    lemma_setting_line_reads_back(k1, v1);
    lemma_setting_line_reads_back(k2, zoom);
    lemma_setting_line_reads_back(k3, v3);
    let l1 = setting_text(k1, v1);
    let l2 = setting_text(k2, zoom);
    let l3 = setting_text(k3, v3);
    lemma_three_lines(l1, l2, l3);
    lemma_three_settings(l1, l2, l3, (k1, v1), (k2, zoom), (k3, v3));
    assert(k1 != k2 && k1 != k3 && k2 != k3) by {
        assert(k1.len() != k2.len() && k1.len() != k3.len() && k2.len() != k3.len());
    }
    assert("true"@ != "false"@) by {
        assert("true"@.len() != "false"@.len());
    }
}

} // verus!
