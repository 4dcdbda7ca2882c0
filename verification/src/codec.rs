//! A plain-text form of `ModData` for persistence.
//!
//! The store is saved as a whole and reloaded as a whole, so the one
//! property that matters is the round trip: parsing what was written
//! yields the same profiles, groups and order. The format is built
//! from two pieces: strings are written with `\` escaping `\` and the
//! `;` terminator, and lists are written as `i`-prefixed items closed
//! by `e`. `lemma_text_round_trip` states the round trip once and for
//! all over the encoding and the parser specification.

use vstd::prelude::*;

use crate::model::{
    ConfigView, DataView, EntryView, ModConfig, ModData, ModGroup, ModOrGroup, ModProfile,
    ModSpecification,
};

verus! {

/// How one character is written: `\` and `;` get a `\` in front.
pub open spec fn esc(c: char) -> Seq<char> {
    if c == '\\' || c == ';' {
        seq!['\\', c]
    } else {
        seq![c]
    }
}

/// The escaped characters of `v`, without the terminator.
pub open spec fn enc_chars(v: Seq<char>) -> Seq<char>
    decreases v.len(),
{
    if v.len() == 0 {
        Seq::empty()
    } else {
        enc_chars(v.drop_last()) + esc(v.last())
    }
}

proof fn lemma_enc_chars_first(v: Seq<char>)
    requires
        v.len() > 0,
    ensures
        enc_chars(v) == esc(v.first()) + enc_chars(v.drop_first()),
    decreases v.len(),
{
    if v.len() == 1 {
        assert(v.drop_last() =~= Seq::<char>::empty());
        assert(v.drop_first() =~= Seq::<char>::empty());
        assert(enc_chars(v) =~= esc(v.first()) + enc_chars(v.drop_first()));
    } else {
        lemma_enc_chars_first(v.drop_last());
        assert(v.drop_last().first() == v.first());
        assert(v.drop_last().drop_first() =~= v.drop_first().drop_last());
        assert(v.drop_first().last() == v.last());
        assert(enc_chars(v) == enc_chars(v.drop_last()) + esc(v.last()));
        assert(enc_chars(v.drop_last()) == esc(v.first()) + enc_chars(v.drop_first().drop_last()));
        assert(enc_chars(v.drop_first()) == enc_chars(v.drop_first().drop_last()) + esc(v.last()));
        assert(enc_chars(v) =~= esc(v.first()) + enc_chars(v.drop_first()));
    }
}

/// A written string: its escaped characters and the terminator.
pub open spec fn enc_string(v: Seq<char>) -> Seq<char> {
    enc_chars(v) + seq![';']
}

/// Parse a string starting at `pos`: the characters up to the
/// unescaped terminator, and the position after it.
pub open spec fn dec_string(s: Seq<char>, pos: int) -> Option<(Seq<char>, int)>
    decreases s.len() - pos,
{
    if !(0 <= pos < s.len()) {
        None
    } else if s[pos] == ';' {
        Some((Seq::empty(), pos + 1))
    } else if s[pos] == '\\' {
        if pos + 1 >= s.len() {
            None
        } else {
            match dec_string(s, pos + 2) {
                Some((t, p)) => Some((seq![s[pos + 1]] + t, p)),
                None => None,
            }
        }
    } else {
        match dec_string(s, pos + 1) {
            Some((t, p)) => Some((seq![s[pos]] + t, p)),
            None => None,
        }
    }
}

/// Parsing reads back exactly what writing put down, leaving the
/// position just past the terminator.
pub proof fn lemma_dec_enc_string(s: Seq<char>, pos: int, v: Seq<char>)
    requires
        0 <= pos,
        pos + enc_string(v).len() <= s.len(),
        s.subrange(pos, pos + enc_string(v).len()) == enc_string(v),
    ensures
        dec_string(s, pos) == Some((v, pos + enc_string(v).len())),
    decreases v.len(),
{
    let e = enc_string(v);
    if v.len() == 0 {
        assert(enc_chars(v) =~= Seq::<char>::empty());
        assert(e =~= seq![';']);
        assert(s[pos] == e[0]);
    } else {
        lemma_enc_chars_first(v);
        let rest = enc_string(v.drop_first());
        assert(e =~= esc(v.first()) + rest);
        let c = v.first();
        if c == '\\' || c == ';' {
            assert(e[0] == '\\' && e[1] == c);
            assert(s[pos] == '\\');
            assert(s[pos + 1] == c);
            assert(s.subrange(pos + 2, pos + 2 + rest.len() as int) =~= rest) by {
                assert forall|i: int| 0 <= i < rest.len() implies s.subrange(
                    pos + 2,
                    pos + 2 + rest.len() as int,
                )[i] == rest[i] by {
                    assert(s[pos + 2 + i] == e[2 + i]);
                }
            }
            lemma_dec_enc_string(s, pos + 2, v.drop_first());
            assert(seq![c] + v.drop_first() =~= v);
        } else {
            assert(e[0] == c);
            assert(s[pos] == c);
            assert(c != ';' && c != '\\');
            assert(s.subrange(pos + 1, pos + 1 + rest.len() as int) =~= rest) by {
                assert forall|i: int| 0 <= i < rest.len() implies s.subrange(
                    pos + 1,
                    pos + 1 + rest.len() as int,
                )[i] == rest[i] by {
                    assert(s[pos + 1 + i] == e[1 + i]);
                }
            }
            lemma_dec_enc_string(s, pos + 1, v.drop_first());
            assert(seq![c] + v.drop_first() =~= v);
        }
    }
}

/// A written boolean: one tag character.
pub open spec fn enc_bool(b: bool) -> Seq<char> {
    if b {
        seq!['t']
    } else {
        seq!['f']
    }
}

/// Parse a boolean tag.
pub open spec fn dec_bool(s: Seq<char>, pos: int) -> Option<(bool, int)> {
    if !(0 <= pos < s.len()) {
        None
    } else if s[pos] == 't' {
        Some((true, pos + 1))
    } else if s[pos] == 'f' {
        Some((false, pos + 1))
    } else {
        None
    }
}

pub proof fn lemma_dec_enc_bool(s: Seq<char>, pos: int, b: bool)
    requires
        0 <= pos,
        pos + 1 <= s.len(),
        s.subrange(pos, pos + 1) == enc_bool(b),
    ensures
        dec_bool(s, pos) == Some((b, pos + 1)),
{
    assert(s[pos] == enc_bool(b)[0]);
}

/// Append one string in its written form.
fn write_string(out: &mut String, v: &str)
    ensures
        final(out)@ == old(out)@ + enc_string(v@),
{
    let n = v.unicode_len();
    let mut i: usize = 0;
    proof {
        reveal_strlit("\\");
        reveal_strlit(";");
        assert("\\"@ =~= seq!['\\']);
        assert(";"@ =~= seq![';']);
        assert(v@.take(0) =~= Seq::<char>::empty());
        assert(out@ =~= old(out)@ + enc_chars(v@.take(0)));
    }
    while i < n
        invariant
            i <= n,
            n == v@.len(),
            out@ == old(out)@ + enc_chars(v@.take(i as int)),
        decreases n - i,
    {
        let ghost pre = out@;
        let c = v.get_char(i);
        if c == '\\' || c == ';' {
            out.append("\\");
        }
        let piece = v.substring_char(i, i + 1);
        out.append(piece);
        proof {
            reveal_strlit("\\");
            assert("\\"@ =~= seq!['\\']);
            assert(piece@ =~= seq![v@[i as int]]);
            assert(out@ =~= pre + esc(v@[i as int]));
            assert(v@.take(i as int + 1).drop_last() =~= v@.take(i as int));
            assert(v@.take(i as int + 1).last() == v@[i as int]);
            assert(out@ =~= old(out)@ + enc_chars(v@.take(i as int + 1)));
        }
        i = i + 1;
    }
    out.append(";");
    proof {
        reveal_strlit(";");
        assert(";"@ =~= seq![';']);
        assert(v@.take(n as int) =~= v@);
        assert(out@ =~= old(out)@ + enc_string(v@));
    }
}

/// Append one boolean tag.
fn write_bool(out: &mut String, b: bool)
    ensures
        final(out)@ == old(out)@ + enc_bool(b),
{
    if b {
        out.append("t");
    } else {
        out.append("f");
    }
    proof {
        reveal_strlit("t");
        reveal_strlit("f");
        assert("t"@ =~= seq!['t']);
        assert("f"@ =~= seq!['f']);
        assert(out@ =~= old(out)@ + enc_bool(b));
    }
}

/// Parse one string; mirrors `dec_string`.
fn parse_string(s: &str, pos: usize) -> (r: Option<(String, usize)>)
    requires
        pos <= s@.len(),
    ensures
        match r {
            Some((x, p)) => dec_string(s@, pos as int) == Some((x@, p as int)) && pos < p
                <= s@.len(),
            None => dec_string(s@, pos as int) is None,
        },
{
    let n = s.unicode_len();
    let mut cur: usize = pos;
    let mut acc = String::new();
    while cur < n
        invariant
            pos <= cur <= n,
            n == s@.len(),
            dec_string(s@, pos as int) == match dec_string(s@, cur as int) {
                Some((t, p)) => Some((acc@ + t, p)),
                None => None::<(Seq<char>, int)>,
            },
        decreases n - cur,
    {
        let c = s.get_char(cur);
        if c == ';' {
            proof {
                assert(dec_string(s@, cur as int) == Some((Seq::<char>::empty(), cur + 1int)));
                assert(acc@ + Seq::<char>::empty() =~= acc@);
            }
            return Some((acc, cur + 1));
        } else if c == '\\' {
            if cur + 1 >= n {
                proof {
                    assert(dec_string(s@, cur as int) is None);
                }
                return None;
            }
            let ghost before = acc@;
            let piece = s.substring_char(cur + 1, cur + 2);
            acc.append(piece);
            proof {
                assert(piece@ =~= seq![s@[cur as int + 1]]);
                assert(acc@ =~= before + seq![s@[cur as int + 1]]);
                match dec_string(s@, cur as int + 2) {
                    Some((t, p)) => {
                        assert(before + (seq![s@[cur as int + 1]] + t) =~= acc@ + t);
                    },
                    None => {},
                }
            }
            cur = cur + 2;
        } else {
            let ghost before = acc@;
            let piece = s.substring_char(cur, cur + 1);
            acc.append(piece);
            proof {
                assert(piece@ =~= seq![s@[cur as int]]);
                assert(acc@ =~= before + seq![s@[cur as int]]);
                match dec_string(s@, cur as int + 1) {
                    Some((t, p)) => {
                        assert(before + (seq![s@[cur as int]] + t) =~= acc@ + t);
                    },
                    None => {},
                }
            }
            cur = cur + 1;
        }
    }
    proof {
        assert(dec_string(s@, cur as int) is None);
    }
    None
}

/// Parse one boolean tag; mirrors `dec_bool`.
fn parse_bool(s: &str, pos: usize) -> (r: Option<(bool, usize)>)
    requires
        pos <= s@.len(),
    ensures
        match r {
            Some((x, p)) => dec_bool(s@, pos as int) == Some((x, p as int)) && pos < p <= s@.len(),
            None => dec_bool(s@, pos as int) is None,
        },
{
    let n = s.unicode_len();
    if pos >= n {
        return None;
    }
    let c = s.get_char(pos);
    if c == 't' {
        Some((true, pos + 1))
    } else if c == 'f' {
        Some((false, pos + 1))
    } else {
        None
    }
}

proof fn lemma_subrange_cat(s: Seq<char>, pos: int, a: Seq<char>, b: Seq<char>)
    requires
        0 <= pos,
        pos + a.len() + b.len() <= s.len(),
        s.subrange(pos, pos + a.len() + b.len()) == a + b,
    ensures
        s.subrange(pos, pos + a.len()) == a,
        s.subrange(pos + a.len(), pos + a.len() + b.len()) == b,
{
    assert(s.subrange(pos, pos + a.len()) =~= a) by {
        assert forall|i: int| 0 <= i < a.len() implies s.subrange(pos, pos + a.len())[i]
            == a[i] by {
            assert(s.subrange(pos, pos + a.len() + b.len())[i] == (a + b)[i]);
        }
    }
    assert(s.subrange(pos + a.len(), pos + a.len() + b.len()) =~= b) by {
        assert forall|i: int| 0 <= i < b.len() implies s.subrange(
            pos + a.len(),
            pos + a.len() + b.len(),
        )[i] == b[i] by {
            assert(s.subrange(pos, pos + a.len() + b.len())[a.len() + i] == (a + b)[a.len() + i]);
            assert((a + b)[a.len() + i] == b[i]);
            assert(s.subrange(pos, pos + a.len() + b.len())[a.len() + i] == s[pos + a.len() + i]);
            assert(s.subrange(pos + a.len(), pos + a.len() + b.len())[i] == s[pos + a.len() + i]);
        }
    }
}

/// A written mod configuration: identifier, then enabled flag.
pub open spec fn enc_config(c: ConfigView) -> Seq<char> {
    enc_string(c.id) + enc_bool(c.enabled)
}

/// Parse one mod configuration.
pub open spec fn dec_config(s: Seq<char>, pos: int) -> Option<(ConfigView, int)> {
    match dec_string(s, pos) {
        Some((id, p1)) => match dec_bool(s, p1) {
            Some((b, p2)) => Some((ConfigView { id, enabled: b }, p2)),
            None => None,
        },
        None => None,
    }
}

pub proof fn lemma_dec_enc_config(s: Seq<char>, pos: int, c: ConfigView)
    requires
        0 <= pos,
        pos + enc_config(c).len() <= s.len(),
        s.subrange(pos, pos + enc_config(c).len()) == enc_config(c),
    ensures
        dec_config(s, pos) == Some((c, pos + enc_config(c).len())),
{
    lemma_subrange_cat(s, pos, enc_string(c.id), enc_bool(c.enabled));
    lemma_dec_enc_string(s, pos, c.id);
    lemma_dec_enc_bool(s, pos + enc_string(c.id).len(), c.enabled);
}

/// A written load-order entry: a tag, then the variant's fields.
pub open spec fn enc_entry(e: EntryView) -> Seq<char> {
    match e {
        EntryView::Mod(c) => seq!['m'] + enc_config(c),
        EntryView::Group { name, enabled } => seq!['g'] + enc_string(name) + enc_bool(enabled),
    }
}

/// Parse one load-order entry.
pub open spec fn dec_entry(s: Seq<char>, pos: int) -> Option<(EntryView, int)> {
    if !(0 <= pos < s.len()) {
        None
    } else if s[pos] == 'm' {
        match dec_config(s, pos + 1) {
            Some((c, p)) => Some((EntryView::Mod(c), p)),
            None => None,
        }
    } else if s[pos] == 'g' {
        match dec_string(s, pos + 1) {
            Some((name, p1)) => match dec_bool(s, p1) {
                Some((b, p2)) => Some((EntryView::Group { name, enabled: b }, p2)),
                None => None,
            },
            None => None,
        }
    } else {
        None
    }
}

pub proof fn lemma_dec_enc_entry(s: Seq<char>, pos: int, e: EntryView)
    requires
        0 <= pos,
        pos + enc_entry(e).len() <= s.len(),
        s.subrange(pos, pos + enc_entry(e).len()) == enc_entry(e),
    ensures
        dec_entry(s, pos) == Some((e, pos + enc_entry(e).len())),
{
    match e {
        EntryView::Mod(c) => {
            assert(enc_entry(e) =~= seq!['m'] + enc_config(c));
            lemma_subrange_cat(s, pos, seq!['m'], enc_config(c));
            assert(s.subrange(pos, pos + 1)[0] == s[pos]);
            assert(s[pos] == 'm');
            lemma_dec_enc_config(s, pos + 1, c);
        },
        EntryView::Group { name, enabled } => {
            assert(enc_entry(e) =~= seq!['g'] + (enc_string(name) + enc_bool(enabled)));
            lemma_subrange_cat(s, pos, seq!['g'], enc_string(name) + enc_bool(enabled));
            assert(s.subrange(pos, pos + 1)[0] == s[pos]);
            assert(s[pos] == 'g');
            lemma_subrange_cat(s, pos + 1, enc_string(name), enc_bool(enabled));
            lemma_dec_enc_string(s, pos + 1, name);
            lemma_dec_enc_bool(s, pos + 1 + enc_string(name).len(), enabled);
        },
    }
}

/// The written items of a load order, without the closing tag.
pub open spec fn enc_entry_items(xs: Seq<EntryView>) -> Seq<char>
    decreases xs.len(),
{
    if xs.len() == 0 {
        Seq::empty()
    } else {
        enc_entry_items(xs.drop_last()) + seq!['i'] + enc_entry(xs.last())
    }
}

proof fn lemma_enc_entry_items_first(xs: Seq<EntryView>)
    requires
        xs.len() > 0,
    ensures
        enc_entry_items(xs) == seq!['i'] + enc_entry(xs.first()) + enc_entry_items(
            xs.drop_first(),
        ),
    decreases xs.len(),
{
    if xs.len() == 1 {
        assert(xs.drop_last() =~= Seq::<EntryView>::empty());
        assert(xs.drop_first() =~= Seq::<EntryView>::empty());
        assert(enc_entry_items(xs) =~= seq!['i'] + enc_entry(xs.first()) + enc_entry_items(
            xs.drop_first(),
        ));
    } else {
        lemma_enc_entry_items_first(xs.drop_last());
        assert(xs.drop_last().first() == xs.first());
        assert(xs.drop_last().drop_first() =~= xs.drop_first().drop_last());
        assert(xs.drop_first().last() == xs.last());
        assert(enc_entry_items(xs) =~= seq!['i'] + enc_entry(xs.first()) + enc_entry_items(
            xs.drop_first(),
        ));
    }
}

/// A written load order: the items and the closing tag.
pub open spec fn enc_entries(xs: Seq<EntryView>) -> Seq<char> {
    enc_entry_items(xs) + seq!['e']
}

/// Parse a load order.
pub open spec fn dec_entries(s: Seq<char>, pos: int) -> Option<(Seq<EntryView>, int)>
    decreases s.len() - pos,
{
    if !(0 <= pos < s.len()) {
        None
    } else if s[pos] == 'e' {
        Some((Seq::empty(), pos + 1))
    } else if s[pos] == 'i' {
        match dec_entry(s, pos + 1) {
            Some((x, p)) => if p <= pos + 1 || p > s.len() {
                None
            } else {
                match dec_entries(s, p) {
                    Some((xs, q)) => Some((seq![x] + xs, q)),
                    None => None,
                }
            },
            None => None,
        }
    } else {
        None
    }
}

pub proof fn lemma_dec_enc_entries(s: Seq<char>, pos: int, xs: Seq<EntryView>)
    requires
        0 <= pos,
        pos + enc_entries(xs).len() <= s.len(),
        s.subrange(pos, pos + enc_entries(xs).len()) == enc_entries(xs),
    ensures
        dec_entries(s, pos) == Some((xs, pos + enc_entries(xs).len())),
    decreases xs.len(),
{
    if xs.len() == 0 {
        assert(enc_entry_items(xs) =~= Seq::<char>::empty());
        assert(enc_entries(xs) =~= seq!['e']);
        assert(s.subrange(pos, pos + 1)[0] == s[pos]);
        assert(s[pos] == 'e');
    } else {
        lemma_enc_entry_items_first(xs);
        let head = enc_entry(xs.first());
        let tail = enc_entries(xs.drop_first());
        assert(enc_entries(xs) =~= seq!['i'] + (head + tail));
        lemma_subrange_cat(s, pos, seq!['i'], head + tail);
        assert(s.subrange(pos, pos + 1)[0] == s[pos]);
        assert(s[pos] == 'i');
        lemma_subrange_cat(s, pos + 1, head, tail);
        lemma_dec_enc_entry(s, pos + 1, xs.first());
        lemma_dec_enc_entries(s, pos + 1 + head.len(), xs.drop_first());
        assert(seq![xs.first()] + xs.drop_first() =~= xs);
    }
}

/// The written items of a group's configurations.
pub open spec fn enc_config_items(xs: Seq<ConfigView>) -> Seq<char>
    decreases xs.len(),
{
    if xs.len() == 0 {
        Seq::empty()
    } else {
        enc_config_items(xs.drop_last()) + seq!['i'] + enc_config(xs.last())
    }
}

proof fn lemma_enc_config_items_first(xs: Seq<ConfigView>)
    requires
        xs.len() > 0,
    ensures
        enc_config_items(xs) == seq!['i'] + enc_config(xs.first()) + enc_config_items(
            xs.drop_first(),
        ),
    decreases xs.len(),
{
    if xs.len() == 1 {
        assert(xs.drop_last() =~= Seq::<ConfigView>::empty());
        assert(xs.drop_first() =~= Seq::<ConfigView>::empty());
        assert(enc_config_items(xs) =~= seq!['i'] + enc_config(xs.first()) + enc_config_items(
            xs.drop_first(),
        ));
    } else {
        lemma_enc_config_items_first(xs.drop_last());
        assert(xs.drop_last().first() == xs.first());
        assert(xs.drop_last().drop_first() =~= xs.drop_first().drop_last());
        assert(xs.drop_first().last() == xs.last());
        assert(enc_config_items(xs) =~= seq!['i'] + enc_config(xs.first()) + enc_config_items(
            xs.drop_first(),
        ));
    }
}

/// A written group body.
pub open spec fn enc_configs(xs: Seq<ConfigView>) -> Seq<char> {
    enc_config_items(xs) + seq!['e']
}

/// Parse a group body.
pub open spec fn dec_configs(s: Seq<char>, pos: int) -> Option<(Seq<ConfigView>, int)>
    decreases s.len() - pos,
{
    if !(0 <= pos < s.len()) {
        None
    } else if s[pos] == 'e' {
        Some((Seq::empty(), pos + 1))
    } else if s[pos] == 'i' {
        match dec_config(s, pos + 1) {
            Some((x, p)) => if p <= pos + 1 || p > s.len() {
                None
            } else {
                match dec_configs(s, p) {
                    Some((xs, q)) => Some((seq![x] + xs, q)),
                    None => None,
                }
            },
            None => None,
        }
    } else {
        None
    }
}

pub proof fn lemma_dec_enc_configs(s: Seq<char>, pos: int, xs: Seq<ConfigView>)
    requires
        0 <= pos,
        pos + enc_configs(xs).len() <= s.len(),
        s.subrange(pos, pos + enc_configs(xs).len()) == enc_configs(xs),
    ensures
        dec_configs(s, pos) == Some((xs, pos + enc_configs(xs).len())),
    decreases xs.len(),
{
    if xs.len() == 0 {
        assert(enc_config_items(xs) =~= Seq::<char>::empty());
        assert(enc_configs(xs) =~= seq!['e']);
        assert(s.subrange(pos, pos + 1)[0] == s[pos]);
        assert(s[pos] == 'e');
    } else {
        lemma_enc_config_items_first(xs);
        let head = enc_config(xs.first());
        let tail = enc_configs(xs.drop_first());
        assert(enc_configs(xs) =~= seq!['i'] + (head + tail));
        lemma_subrange_cat(s, pos, seq!['i'], head + tail);
        assert(s.subrange(pos, pos + 1)[0] == s[pos]);
        assert(s[pos] == 'i');
        lemma_subrange_cat(s, pos + 1, head, tail);
        lemma_dec_enc_config(s, pos + 1, xs.first());
        lemma_dec_enc_configs(s, pos + 1 + head.len(), xs.drop_first());
        assert(seq![xs.first()] + xs.drop_first() =~= xs);
    }
}

/// A written named profile: its name, then its load order.
pub open spec fn enc_profile(p: (Seq<char>, Seq<EntryView>)) -> Seq<char> {
    enc_string(p.0) + enc_entries(p.1)
}

/// Parse one named profile.
pub open spec fn dec_profile(s: Seq<char>, pos: int) -> Option<((Seq<char>, Seq<EntryView>), int)> {
    match dec_string(s, pos) {
        Some((name, p1)) => match dec_entries(s, p1) {
            Some((es, p2)) => Some(((name, es), p2)),
            None => None,
        },
        None => None,
    }
}

pub proof fn lemma_dec_enc_profile(s: Seq<char>, pos: int, p: (Seq<char>, Seq<EntryView>))
    requires
        0 <= pos,
        pos + enc_profile(p).len() <= s.len(),
        s.subrange(pos, pos + enc_profile(p).len()) == enc_profile(p),
    ensures
        dec_profile(s, pos) == Some((p, pos + enc_profile(p).len())),
{
    lemma_subrange_cat(s, pos, enc_string(p.0), enc_entries(p.1));
    lemma_dec_enc_string(s, pos, p.0);
    lemma_dec_enc_entries(s, pos + enc_string(p.0).len(), p.1);
}

/// The written items of the profile family.
pub open spec fn enc_profile_items(xs: Seq<(Seq<char>, Seq<EntryView>)>) -> Seq<char>
    decreases xs.len(),
{
    if xs.len() == 0 {
        Seq::empty()
    } else {
        enc_profile_items(xs.drop_last()) + seq!['i'] + enc_profile(xs.last())
    }
}

proof fn lemma_enc_profile_items_first(xs: Seq<(Seq<char>, Seq<EntryView>)>)
    requires
        xs.len() > 0,
    ensures
        enc_profile_items(xs) == seq!['i'] + enc_profile(xs.first()) + enc_profile_items(
            xs.drop_first(),
        ),
    decreases xs.len(),
{
    if xs.len() == 1 {
        assert(xs.drop_last() =~= Seq::<(Seq<char>, Seq<EntryView>)>::empty());
        assert(xs.drop_first() =~= Seq::<(Seq<char>, Seq<EntryView>)>::empty());
        assert(enc_profile_items(xs) =~= seq!['i'] + enc_profile(xs.first()) + enc_profile_items(
            xs.drop_first(),
        ));
    } else {
        lemma_enc_profile_items_first(xs.drop_last());
        assert(xs.drop_last().first() == xs.first());
        assert(xs.drop_last().drop_first() =~= xs.drop_first().drop_last());
        assert(xs.drop_first().last() == xs.last());
        assert(enc_profile_items(xs) =~= seq!['i'] + enc_profile(xs.first()) + enc_profile_items(
            xs.drop_first(),
        ));
    }
}

/// The written profile family.
pub open spec fn enc_profiles(xs: Seq<(Seq<char>, Seq<EntryView>)>) -> Seq<char> {
    enc_profile_items(xs) + seq!['e']
}

/// Parse the profile family.
pub open spec fn dec_profiles(s: Seq<char>, pos: int) -> Option<
    (Seq<(Seq<char>, Seq<EntryView>)>, int),
>
    decreases s.len() - pos,
{
    if !(0 <= pos < s.len()) {
        None
    } else if s[pos] == 'e' {
        Some((Seq::empty(), pos + 1))
    } else if s[pos] == 'i' {
        match dec_profile(s, pos + 1) {
            Some((x, p)) => if p <= pos + 1 || p > s.len() {
                None
            } else {
                match dec_profiles(s, p) {
                    Some((xs, q)) => Some((seq![x] + xs, q)),
                    None => None,
                }
            },
            None => None,
        }
    } else {
        None
    }
}

pub proof fn lemma_dec_enc_profiles(s: Seq<char>, pos: int, xs: Seq<(Seq<char>, Seq<EntryView>)>)
    requires
        0 <= pos,
        pos + enc_profiles(xs).len() <= s.len(),
        s.subrange(pos, pos + enc_profiles(xs).len()) == enc_profiles(xs),
    ensures
        dec_profiles(s, pos) == Some((xs, pos + enc_profiles(xs).len())),
    decreases xs.len(),
{
    if xs.len() == 0 {
        assert(enc_profile_items(xs) =~= Seq::<char>::empty());
        assert(enc_profiles(xs) =~= seq!['e']);
        assert(s.subrange(pos, pos + 1)[0] == s[pos]);
        assert(s[pos] == 'e');
    } else {
        lemma_enc_profile_items_first(xs);
        let head = enc_profile(xs.first());
        let tail = enc_profiles(xs.drop_first());
        assert(enc_profiles(xs) =~= seq!['i'] + (head + tail));
        lemma_subrange_cat(s, pos, seq!['i'], head + tail);
        assert(s.subrange(pos, pos + 1)[0] == s[pos]);
        assert(s[pos] == 'i');
        lemma_subrange_cat(s, pos + 1, head, tail);
        lemma_dec_enc_profile(s, pos + 1, xs.first());
        lemma_dec_enc_profiles(s, pos + 1 + head.len(), xs.drop_first());
        assert(seq![xs.first()] + xs.drop_first() =~= xs);
    }
}

/// A written named group: its name, then its configurations.
pub open spec fn enc_group(g: (Seq<char>, Seq<ConfigView>)) -> Seq<char> {
    enc_string(g.0) + enc_configs(g.1)
}

/// Parse one named group.
pub open spec fn dec_group(s: Seq<char>, pos: int) -> Option<((Seq<char>, Seq<ConfigView>), int)> {
    match dec_string(s, pos) {
        Some((name, p1)) => match dec_configs(s, p1) {
            Some((cs, p2)) => Some(((name, cs), p2)),
            None => None,
        },
        None => None,
    }
}

pub proof fn lemma_dec_enc_group(s: Seq<char>, pos: int, g: (Seq<char>, Seq<ConfigView>))
    requires
        0 <= pos,
        pos + enc_group(g).len() <= s.len(),
        s.subrange(pos, pos + enc_group(g).len()) == enc_group(g),
    ensures
        dec_group(s, pos) == Some((g, pos + enc_group(g).len())),
{
    lemma_subrange_cat(s, pos, enc_string(g.0), enc_configs(g.1));
    lemma_dec_enc_string(s, pos, g.0);
    lemma_dec_enc_configs(s, pos + enc_string(g.0).len(), g.1);
}

/// The written items of the group family.
pub open spec fn enc_group_items(xs: Seq<(Seq<char>, Seq<ConfigView>)>) -> Seq<char>
    decreases xs.len(),
{
    if xs.len() == 0 {
        Seq::empty()
    } else {
        enc_group_items(xs.drop_last()) + seq!['i'] + enc_group(xs.last())
    }
}

proof fn lemma_enc_group_items_first(xs: Seq<(Seq<char>, Seq<ConfigView>)>)
    requires
        xs.len() > 0,
    ensures
        enc_group_items(xs) == seq!['i'] + enc_group(xs.first()) + enc_group_items(
            xs.drop_first(),
        ),
    decreases xs.len(),
{
    if xs.len() == 1 {
        assert(xs.drop_last() =~= Seq::<(Seq<char>, Seq<ConfigView>)>::empty());
        assert(xs.drop_first() =~= Seq::<(Seq<char>, Seq<ConfigView>)>::empty());
        assert(enc_group_items(xs) =~= seq!['i'] + enc_group(xs.first()) + enc_group_items(
            xs.drop_first(),
        ));
    } else {
        lemma_enc_group_items_first(xs.drop_last());
        assert(xs.drop_last().first() == xs.first());
        assert(xs.drop_last().drop_first() =~= xs.drop_first().drop_last());
        assert(xs.drop_first().last() == xs.last());
        assert(enc_group_items(xs) =~= seq!['i'] + enc_group(xs.first()) + enc_group_items(
            xs.drop_first(),
        ));
    }
}

/// The written group family.
pub open spec fn enc_groups(xs: Seq<(Seq<char>, Seq<ConfigView>)>) -> Seq<char> {
    enc_group_items(xs) + seq!['e']
}

/// Parse the group family.
pub open spec fn dec_groups(s: Seq<char>, pos: int) -> Option<
    (Seq<(Seq<char>, Seq<ConfigView>)>, int),
>
    decreases s.len() - pos,
{
    if !(0 <= pos < s.len()) {
        None
    } else if s[pos] == 'e' {
        Some((Seq::empty(), pos + 1))
    } else if s[pos] == 'i' {
        match dec_group(s, pos + 1) {
            Some((x, p)) => if p <= pos + 1 || p > s.len() {
                None
            } else {
                match dec_groups(s, p) {
                    Some((xs, q)) => Some((seq![x] + xs, q)),
                    None => None,
                }
            },
            None => None,
        }
    } else {
        None
    }
}

pub proof fn lemma_dec_enc_groups(s: Seq<char>, pos: int, xs: Seq<(Seq<char>, Seq<ConfigView>)>)
    requires
        0 <= pos,
        pos + enc_groups(xs).len() <= s.len(),
        s.subrange(pos, pos + enc_groups(xs).len()) == enc_groups(xs),
    ensures
        dec_groups(s, pos) == Some((xs, pos + enc_groups(xs).len())),
    decreases xs.len(),
{
    if xs.len() == 0 {
        assert(enc_group_items(xs) =~= Seq::<char>::empty());
        assert(enc_groups(xs) =~= seq!['e']);
        assert(s.subrange(pos, pos + 1)[0] == s[pos]);
        assert(s[pos] == 'e');
    } else {
        lemma_enc_group_items_first(xs);
        let head = enc_group(xs.first());
        let tail = enc_groups(xs.drop_first());
        assert(enc_groups(xs) =~= seq!['i'] + (head + tail));
        lemma_subrange_cat(s, pos, seq!['i'], head + tail);
        assert(s.subrange(pos, pos + 1)[0] == s[pos]);
        assert(s[pos] == 'i');
        lemma_subrange_cat(s, pos + 1, head, tail);
        lemma_dec_enc_group(s, pos + 1, xs.first());
        lemma_dec_enc_groups(s, pos + 1 + head.len(), xs.drop_first());
        assert(seq![xs.first()] + xs.drop_first() =~= xs);
    }
}

/// The whole written store: profiles, groups, active profile.
pub open spec fn enc_data(d: DataView) -> Seq<char> {
    enc_profiles(d.profiles) + enc_groups(d.groups) + enc_string(d.active_profile)
}

/// Parse the whole store.
pub open spec fn dec_data(s: Seq<char>, pos: int) -> Option<(DataView, int)> {
    match dec_profiles(s, pos) {
        Some((ps, p1)) => match dec_groups(s, p1) {
            Some((gs, p2)) => match dec_string(s, p2) {
                Some((a, p3)) => Some(
                    (DataView { profiles: ps, groups: gs, active_profile: a }, p3),
                ),
                None => None,
            },
            None => None,
        },
        None => None,
    }
}

pub proof fn lemma_dec_enc_data(s: Seq<char>, pos: int, d: DataView)
    requires
        0 <= pos,
        pos + enc_data(d).len() <= s.len(),
        s.subrange(pos, pos + enc_data(d).len()) == enc_data(d),
    ensures
        dec_data(s, pos) == Some((d, pos + enc_data(d).len())),
{
    let a = enc_profiles(d.profiles);
    let b = enc_groups(d.groups);
    let c = enc_string(d.active_profile);
    assert(enc_data(d) =~= a + (b + c));
    lemma_subrange_cat(s, pos, a, b + c);
    lemma_subrange_cat(s, pos + a.len(), b, c);
    lemma_dec_enc_profiles(s, pos, d.profiles);
    lemma_dec_enc_groups(s, pos + a.len(), d.groups);
    lemma_dec_enc_string(s, pos + a.len() + b.len(), d.active_profile);
}

/// The round trip: parsing a written store gives back exactly the
/// store that was written — same profiles, same groups, same order,
/// same active profile — with nothing left over.
pub proof fn lemma_text_round_trip(d: DataView)
    ensures
        dec_data(enc_data(d), 0) == Some((d, enc_data(d).len() as int)),
{
    let s = enc_data(d);
    assert(s.subrange(0, s.len() as int) =~= s);
    lemma_dec_enc_data(s, 0, d);
}

fn write_config(out: &mut String, mc: &ModConfig)
    ensures
        final(out)@ == old(out)@ + enc_config(mc@),
{
    write_string(out, mc.spec.url.as_str());
    write_bool(out, mc.enabled);
    proof {
        assert(out@ =~= old(out)@ + enc_config(mc@));
    }
}

fn write_entry(out: &mut String, e: &ModOrGroup)
    ensures
        final(out)@ == old(out)@ + enc_entry(e@),
{
    match e {
        ModOrGroup::Individual(mc) => {
            out.append("m");
            write_config(out, mc);
            proof {
                reveal_strlit("m");
                assert("m"@ =~= seq!['m']);
                assert(out@ =~= old(out)@ + enc_entry(e@));
            }
        },
        ModOrGroup::Group { group_name, enabled } => {
            out.append("g");
            write_string(out, group_name.as_str());
            write_bool(out, *enabled);
            proof {
                reveal_strlit("g");
                assert("g"@ =~= seq!['g']);
                assert(out@ =~= old(out)@ + enc_entry(e@));
            }
        },
    }
}

fn write_entries(out: &mut String, p: &ModProfile)
    ensures
        final(out)@ == old(out)@ + enc_entries(p@),
{
    let mut i: usize = 0;
    proof {
        assert(p@.take(0) =~= Seq::<EntryView>::empty());
        assert(out@ =~= old(out)@ + enc_entry_items(p@.take(0)));
    }
    while i < p.mods.len()
        invariant
            i <= p.mods@.len(),
            p@.len() == p.mods@.len(),
            out@ == old(out)@ + enc_entry_items(p@.take(i as int)),
        decreases p.mods@.len() - i,
    {
        out.append("i");
        write_entry(out, &p.mods[i]);
        proof {
            reveal_strlit("i");
            assert("i"@ =~= seq!['i']);
            assert(p@[i as int] == p.mods@[i as int]@);
            assert(p@.take(i as int + 1).drop_last() =~= p@.take(i as int));
            assert(p@.take(i as int + 1).last() == p@[i as int]);
            assert(out@ =~= old(out)@ + enc_entry_items(p@.take(i as int + 1)));
        }
        i = i + 1;
    }
    out.append("e");
    proof {
        reveal_strlit("e");
        assert("e"@ =~= seq!['e']);
        assert(p@.take(p@.len() as int) =~= p@);
        assert(out@ =~= old(out)@ + enc_entries(p@));
    }
}

fn write_configs(out: &mut String, g: &ModGroup)
    ensures
        final(out)@ == old(out)@ + enc_configs(g@),
{
    let mut i: usize = 0;
    proof {
        assert(g@.take(0) =~= Seq::<ConfigView>::empty());
        assert(out@ =~= old(out)@ + enc_config_items(g@.take(0)));
    }
    while i < g.mods.len()
        invariant
            i <= g.mods@.len(),
            g@.len() == g.mods@.len(),
            out@ == old(out)@ + enc_config_items(g@.take(i as int)),
        decreases g.mods@.len() - i,
    {
        out.append("i");
        write_config(out, &g.mods[i]);
        proof {
            reveal_strlit("i");
            assert("i"@ =~= seq!['i']);
            assert(g@[i as int] == g.mods@[i as int]@);
            assert(g@.take(i as int + 1).drop_last() =~= g@.take(i as int));
            assert(g@.take(i as int + 1).last() == g@[i as int]);
            assert(out@ =~= old(out)@ + enc_config_items(g@.take(i as int + 1)));
        }
        i = i + 1;
    }
    out.append("e");
    proof {
        reveal_strlit("e");
        assert("e"@ =~= seq!['e']);
        assert(g@.take(g@.len() as int) =~= g@);
        assert(out@ =~= old(out)@ + enc_configs(g@));
    }
}

fn write_profiles(out: &mut String, ps: &Vec<(String, ModProfile)>)
    ensures
        final(out)@ == old(out)@ + enc_profiles(
            ps@.map_values(|p: (String, ModProfile)| (p.0@, p.1@)),
        ),
{
    let ghost views = ps@.map_values(|p: (String, ModProfile)| (p.0@, p.1@));
    let mut i: usize = 0;
    proof {
        assert(views.take(0) =~= Seq::<(Seq<char>, Seq<EntryView>)>::empty());
        assert(out@ =~= old(out)@ + enc_profile_items(views.take(0)));
    }
    while i < ps.len()
        invariant
            i <= ps@.len(),
            views == ps@.map_values(|p: (String, ModProfile)| (p.0@, p.1@)),
            views.len() == ps@.len(),
            out@ == old(out)@ + enc_profile_items(views.take(i as int)),
        decreases ps@.len() - i,
    {
        out.append("i");
        write_string(out, ps[i].0.as_str());
        write_entries(out, &ps[i].1);
        proof {
            reveal_strlit("i");
            assert("i"@ =~= seq!['i']);
            assert(views[i as int] == (ps@[i as int].0@, ps@[i as int].1@));
            assert(views.take(i as int + 1).drop_last() =~= views.take(i as int));
            assert(views.take(i as int + 1).last() == views[i as int]);
            assert(out@ =~= old(out)@ + enc_profile_items(views.take(i as int + 1)));
        }
        i = i + 1;
    }
    out.append("e");
    proof {
        reveal_strlit("e");
        assert("e"@ =~= seq!['e']);
        assert(views.take(views.len() as int) =~= views);
        assert(out@ =~= old(out)@ + enc_profiles(views));
    }
}

fn write_groups(out: &mut String, gs: &Vec<(String, ModGroup)>)
    ensures
        final(out)@ == old(out)@ + enc_groups(
            gs@.map_values(|g: (String, ModGroup)| (g.0@, g.1@)),
        ),
{
    let ghost views = gs@.map_values(|g: (String, ModGroup)| (g.0@, g.1@));
    let mut i: usize = 0;
    proof {
        assert(views.take(0) =~= Seq::<(Seq<char>, Seq<ConfigView>)>::empty());
        assert(out@ =~= old(out)@ + enc_group_items(views.take(0)));
    }
    while i < gs.len()
        invariant
            i <= gs@.len(),
            views == gs@.map_values(|g: (String, ModGroup)| (g.0@, g.1@)),
            views.len() == gs@.len(),
            out@ == old(out)@ + enc_group_items(views.take(i as int)),
        decreases gs@.len() - i,
    {
        out.append("i");
        write_string(out, gs[i].0.as_str());
        write_configs(out, &gs[i].1);
        proof {
            reveal_strlit("i");
            assert("i"@ =~= seq!['i']);
            assert(views[i as int] == (gs@[i as int].0@, gs@[i as int].1@));
            assert(views.take(i as int + 1).drop_last() =~= views.take(i as int));
            assert(views.take(i as int + 1).last() == views[i as int]);
            assert(out@ =~= old(out)@ + enc_group_items(views.take(i as int + 1)));
        }
        i = i + 1;
    }
    out.append("e");
    proof {
        reveal_strlit("e");
        assert("e"@ =~= seq!['e']);
        assert(views.take(views.len() as int) =~= views);
        assert(out@ =~= old(out)@ + enc_groups(views));
    }
}

fn parse_config(s: &str, pos: usize) -> (r: Option<(ModConfig, usize)>)
    requires
        pos <= s@.len(),
    ensures
        match r {
            Some((x, p)) => dec_config(s@, pos as int) == Some((x@, p as int)) && pos < p
                <= s@.len(),
            None => dec_config(s@, pos as int) is None,
        },
{
    match parse_string(s, pos) {
        Some((url, p1)) => match parse_bool(s, p1) {
            Some((b, p2)) => Some((ModConfig { spec: ModSpecification { url }, enabled: b }, p2)),
            None => None,
        },
        None => None,
    }
}

fn parse_entry(s: &str, pos: usize) -> (r: Option<(ModOrGroup, usize)>)
    requires
        pos <= s@.len(),
    ensures
        match r {
            Some((x, p)) => dec_entry(s@, pos as int) == Some((x@, p as int)) && pos < p
                <= s@.len(),
            None => dec_entry(s@, pos as int) is None,
        },
{
    let n = s.unicode_len();
    if pos >= n {
        return None;
    }
    let c = s.get_char(pos);
    if c == 'm' {
        match parse_config(s, pos + 1) {
            Some((mc, p)) => Some((ModOrGroup::Individual(mc), p)),
            None => None,
        }
    } else if c == 'g' {
        match parse_string(s, pos + 1) {
            Some((name, p1)) => match parse_bool(s, p1) {
                Some((b, p2)) => Some(
                    (ModOrGroup::Group { group_name: name, enabled: b }, p2),
                ),
                None => None,
            },
            None => None,
        }
    } else {
        None
    }
}

fn parse_entries(s: &str, pos: usize) -> (r: Option<(ModProfile, usize)>)
    requires
        pos <= s@.len(),
    ensures
        match r {
            Some((x, p)) => dec_entries(s@, pos as int) == Some((x@, p as int)) && pos < p
                <= s@.len(),
            None => dec_entries(s@, pos as int) is None,
        },
{
    let n = s.unicode_len();
    let mut acc: Vec<ModOrGroup> = Vec::new();
    let mut cur: usize = pos;
    proof {
        assert(acc@.map_values(|m: ModOrGroup| m@) =~= Seq::<EntryView>::empty());
    }
    while cur < n
        invariant
            pos <= cur <= n,
            n == s@.len(),
            dec_entries(s@, pos as int) == match dec_entries(s@, cur as int) {
                Some((t, p)) => Some((acc@.map_values(|m: ModOrGroup| m@) + t, p)),
                None => None::<(Seq<EntryView>, int)>,
            },
        decreases n - cur,
    {
        let c = s.get_char(cur);
        if c == 'e' {
            proof {
                assert(dec_entries(s@, cur as int) == Some(
                    (Seq::<EntryView>::empty(), cur as int + 1),
                ));
                assert(acc@.map_values(|m: ModOrGroup| m@) + Seq::<EntryView>::empty()
                    =~= acc@.map_values(|m: ModOrGroup| m@));
            }
            return Some((ModProfile { mods: acc }, cur + 1));
        } else if c == 'i' {
            match parse_entry(s, cur + 1) {
                Some((x, p2)) => {
                    proof {
                        let accv = acc@.map_values(|m: ModOrGroup| m@);
                        assert(dec_entries(s@, cur as int) == (match dec_entries(s@, p2 as int) {
                            Some((t, q)) => Some((seq![x@] + t, q)),
                            None => None::<(Seq<EntryView>, int)>,
                        }));
                        match dec_entries(s@, p2 as int) {
                            Some((t, q)) => {
                                assert(accv + (seq![x@] + t) =~= accv.push(x@) + t);
                            },
                            None => {},
                        }
                    }
                    let ghost oldacc = acc@;
                    acc.push(x);
                    proof {
                        assert(acc@.map_values(|m: ModOrGroup| m@) =~= oldacc.map_values(
                            |m: ModOrGroup| m@,
                        ).push(x@));
                    }
                    cur = p2;
                },
                None => {
                    proof {
                        assert(dec_entries(s@, cur as int) is None);
                    }
                    return None;
                },
            }
        } else {
            proof {
                assert(dec_entries(s@, cur as int) is None);
            }
            return None;
        }
    }
    proof {
        assert(dec_entries(s@, cur as int) is None);
    }
    None
}

fn parse_configs(s: &str, pos: usize) -> (r: Option<(ModGroup, usize)>)
    requires
        pos <= s@.len(),
    ensures
        match r {
            Some((x, p)) => dec_configs(s@, pos as int) == Some((x@, p as int)) && pos < p
                <= s@.len(),
            None => dec_configs(s@, pos as int) is None,
        },
{
    let n = s.unicode_len();
    let mut acc: Vec<ModConfig> = Vec::new();
    let mut cur: usize = pos;
    proof {
        assert(acc@.map_values(|m: ModConfig| m@) =~= Seq::<ConfigView>::empty());
    }
    while cur < n
        invariant
            pos <= cur <= n,
            n == s@.len(),
            dec_configs(s@, pos as int) == match dec_configs(s@, cur as int) {
                Some((t, p)) => Some((acc@.map_values(|m: ModConfig| m@) + t, p)),
                None => None::<(Seq<ConfigView>, int)>,
            },
        decreases n - cur,
    {
        let c = s.get_char(cur);
        if c == 'e' {
            proof {
                assert(dec_configs(s@, cur as int) == Some(
                    (Seq::<ConfigView>::empty(), cur as int + 1),
                ));
                assert(acc@.map_values(|m: ModConfig| m@) + Seq::<ConfigView>::empty()
                    =~= acc@.map_values(|m: ModConfig| m@));
            }
            return Some((ModGroup { mods: acc }, cur + 1));
        } else if c == 'i' {
            match parse_config(s, cur + 1) {
                Some((x, p2)) => {
                    proof {
                        let accv = acc@.map_values(|m: ModConfig| m@);
                        assert(dec_configs(s@, cur as int) == (match dec_configs(s@, p2 as int) {
                            Some((t, q)) => Some((seq![x@] + t, q)),
                            None => None::<(Seq<ConfigView>, int)>,
                        }));
                        match dec_configs(s@, p2 as int) {
                            Some((t, q)) => {
                                assert(accv + (seq![x@] + t) =~= accv.push(x@) + t);
                            },
                            None => {},
                        }
                    }
                    let ghost oldacc = acc@;
                    acc.push(x);
                    proof {
                        assert(acc@.map_values(|m: ModConfig| m@) =~= oldacc.map_values(
                            |m: ModConfig| m@,
                        ).push(x@));
                    }
                    cur = p2;
                },
                None => {
                    proof {
                        assert(dec_configs(s@, cur as int) is None);
                    }
                    return None;
                },
            }
        } else {
            proof {
                assert(dec_configs(s@, cur as int) is None);
            }
            return None;
        }
    }
    proof {
        assert(dec_configs(s@, cur as int) is None);
    }
    None
}

fn parse_profiles(s: &str, pos: usize) -> (r: Option<(Vec<(String, ModProfile)>, usize)>)
    requires
        pos <= s@.len(),
    ensures
        match r {
            Some((x, p)) => dec_profiles(s@, pos as int) == Some(
                (x@.map_values(|q: (String, ModProfile)| (q.0@, q.1@)), p as int),
            ) && pos < p <= s@.len(),
            None => dec_profiles(s@, pos as int) is None,
        },
{
    let n = s.unicode_len();
    let mut acc: Vec<(String, ModProfile)> = Vec::new();
    let mut cur: usize = pos;
    proof {
        assert(acc@.map_values(|q: (String, ModProfile)| (q.0@, q.1@)) =~= Seq::<
            (Seq<char>, Seq<EntryView>),
        >::empty());
    }
    while cur < n
        invariant
            pos <= cur <= n,
            n == s@.len(),
            dec_profiles(s@, pos as int) == match dec_profiles(s@, cur as int) {
                Some((t, p)) => Some(
                    (acc@.map_values(|q: (String, ModProfile)| (q.0@, q.1@)) + t, p),
                ),
                None => None::<(Seq<(Seq<char>, Seq<EntryView>)>, int)>,
            },
        decreases n - cur,
    {
        let c = s.get_char(cur);
        if c == 'e' {
            proof {
                assert(dec_profiles(s@, cur as int) == Some(
                    (Seq::<(Seq<char>, Seq<EntryView>)>::empty(), cur as int + 1),
                ));
                assert(acc@.map_values(|q: (String, ModProfile)| (q.0@, q.1@)) + Seq::<
                    (Seq<char>, Seq<EntryView>),
                >::empty() =~= acc@.map_values(|q: (String, ModProfile)| (q.0@, q.1@)));
            }
            return Some((acc, cur + 1));
        } else if c == 'i' {
            let name_res = parse_string(s, cur + 1);
            match name_res {
                Some((name, p1)) => {
                    match parse_entries(s, p1) {
                        Some((profile, p2)) => {
                            proof {
                                let accv = acc@.map_values(
                                    |q: (String, ModProfile)| (q.0@, q.1@),
                                );
                                assert(dec_profile(s@, cur as int + 1) == Some(
                                    ((name@, profile@), p2 as int),
                                ));
                                assert(dec_profiles(s@, cur as int) == (match dec_profiles(
                                    s@,
                                    p2 as int,
                                ) {
                                    Some((t, q)) => Some((seq![(name@, profile@)] + t, q)),
                                    None => None::<(Seq<(Seq<char>, Seq<EntryView>)>, int)>,
                                }));
                                match dec_profiles(s@, p2 as int) {
                                    Some((t, q)) => {
                                        assert(accv + (seq![(name@, profile@)] + t) =~= accv.push(
                                            (name@, profile@),
                                        ) + t);
                                    },
                                    None => {},
                                }
                            }
                            let ghost oldacc = acc@;
                            acc.push((name, profile));
                            proof {
                                assert(acc@.map_values(|q: (String, ModProfile)| (q.0@, q.1@))
                                    =~= oldacc.map_values(
                                    |q: (String, ModProfile)| (q.0@, q.1@),
                                ).push((name@, profile@)));
                            }
                            cur = p2;
                        },
                        None => {
                            proof {
                                assert(dec_profile(s@, cur as int + 1) is None);
                                assert(dec_profiles(s@, cur as int) is None);
                            }
                            return None;
                        },
                    }
                },
                None => {
                    proof {
                        assert(dec_profile(s@, cur as int + 1) is None);
                        assert(dec_profiles(s@, cur as int) is None);
                    }
                    return None;
                },
            }
        } else {
            proof {
                assert(dec_profiles(s@, cur as int) is None);
            }
            return None;
        }
    }
    proof {
        assert(dec_profiles(s@, cur as int) is None);
    }
    None
}

fn parse_groups(s: &str, pos: usize) -> (r: Option<(Vec<(String, ModGroup)>, usize)>)
    requires
        pos <= s@.len(),
    ensures
        match r {
            Some((x, p)) => dec_groups(s@, pos as int) == Some(
                (x@.map_values(|q: (String, ModGroup)| (q.0@, q.1@)), p as int),
            ) && pos < p <= s@.len(),
            None => dec_groups(s@, pos as int) is None,
        },
{
    let n = s.unicode_len();
    let mut acc: Vec<(String, ModGroup)> = Vec::new();
    let mut cur: usize = pos;
    proof {
        assert(acc@.map_values(|q: (String, ModGroup)| (q.0@, q.1@)) =~= Seq::<
            (Seq<char>, Seq<ConfigView>),
        >::empty());
    }
    while cur < n
        invariant
            pos <= cur <= n,
            n == s@.len(),
            dec_groups(s@, pos as int) == match dec_groups(s@, cur as int) {
                Some((t, p)) => Some(
                    (acc@.map_values(|q: (String, ModGroup)| (q.0@, q.1@)) + t, p),
                ),
                None => None::<(Seq<(Seq<char>, Seq<ConfigView>)>, int)>,
            },
        decreases n - cur,
    {
        let c = s.get_char(cur);
        if c == 'e' {
            proof {
                assert(dec_groups(s@, cur as int) == Some(
                    (Seq::<(Seq<char>, Seq<ConfigView>)>::empty(), cur as int + 1),
                ));
                assert(acc@.map_values(|q: (String, ModGroup)| (q.0@, q.1@)) + Seq::<
                    (Seq<char>, Seq<ConfigView>),
                >::empty() =~= acc@.map_values(|q: (String, ModGroup)| (q.0@, q.1@)));
            }
            return Some((acc, cur + 1));
        } else if c == 'i' {
            let name_res = parse_string(s, cur + 1);
            match name_res {
                Some((name, p1)) => {
                    match parse_configs(s, p1) {
                        Some((group, p2)) => {
                            proof {
                                let accv = acc@.map_values(|q: (String, ModGroup)| (q.0@, q.1@));
                                assert(dec_group(s@, cur as int + 1) == Some(
                                    ((name@, group@), p2 as int),
                                ));
                                assert(dec_groups(s@, cur as int) == (match dec_groups(
                                    s@,
                                    p2 as int,
                                ) {
                                    Some((t, q)) => Some((seq![(name@, group@)] + t, q)),
                                    None => None::<(Seq<(Seq<char>, Seq<ConfigView>)>, int)>,
                                }));
                                match dec_groups(s@, p2 as int) {
                                    Some((t, q)) => {
                                        assert(accv + (seq![(name@, group@)] + t) =~= accv.push(
                                            (name@, group@),
                                        ) + t);
                                    },
                                    None => {},
                                }
                            }
                            let ghost oldacc = acc@;
                            acc.push((name, group));
                            proof {
                                assert(acc@.map_values(|q: (String, ModGroup)| (q.0@, q.1@))
                                    =~= oldacc.map_values(
                                    |q: (String, ModGroup)| (q.0@, q.1@),
                                ).push((name@, group@)));
                            }
                            cur = p2;
                        },
                        None => {
                            proof {
                                assert(dec_group(s@, cur as int + 1) is None);
                                assert(dec_groups(s@, cur as int) is None);
                            }
                            return None;
                        },
                    }
                },
                None => {
                    proof {
                        assert(dec_group(s@, cur as int + 1) is None);
                        assert(dec_groups(s@, cur as int) is None);
                    }
                    return None;
                },
            }
        } else {
            proof {
                assert(dec_groups(s@, cur as int) is None);
            }
            return None;
        }
    }
    proof {
        assert(dec_groups(s@, cur as int) is None);
    }
    None
}

impl ModData {
    /// The whole store as text, ready to be written out.
    pub fn to_text(&self) -> (r: String)
        ensures
            r@ == enc_data(self@),
    {
        let mut out = String::new();
        write_profiles(&mut out, &self.profiles);
        write_groups(&mut out, &self.groups);
        write_string(&mut out, self.active_profile.as_str());
        proof {
            assert(out@ =~= enc_data(self@));
        }
        out
    }

    /// The store read back from text. Returns `Some` exactly when the
    /// text parses as one whole store with nothing left over; parsing
    /// what `to_text` wrote gives back the identical store (see
    /// `lemma_text_round_trip`).
    pub fn from_text(s: &str) -> (r: Option<ModData>)
        ensures
            match r {
                Some(d) => dec_data(s@, 0) == Some((d@, s@.len() as int)),
                None => match dec_data(s@, 0) {
                    Some((v, p)) => p != s@.len(),
                    None => true,
                },
            },
    {
        let n = s.unicode_len();
        let profiles = match parse_profiles(s, 0) {
            Some(x) => x,
            None => {
                return None;
            },
        };
        let groups = match parse_groups(s, profiles.1) {
            Some(x) => x,
            None => {
                return None;
            },
        };
        let active = match parse_string(s, groups.1) {
            Some(x) => x,
            None => {
                return None;
            },
        };
        if active.1 != n {
            return None;
        }
        let d = ModData {
            profiles: profiles.0,
            groups: groups.0,
            active_profile: active.0,
        };
        proof {
            assert(d@ =~= (match dec_data(s@, 0) {
                Some((v, p)) => v,
                None => d@,
            }));
        }
        Some(d)
    }
}

} // verus!
