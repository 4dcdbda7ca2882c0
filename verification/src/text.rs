//! Turning pasted text into mod identifiers and back.
//!
//! The add-mod box accepts one identifier per line; surrounding blanks
//! are ignored and blank lines dropped. The copy action produces the
//! reverse: the enabled identifiers, one per line.

use vstd::prelude::*;

use crate::model::{ConfigView, ModConfig, ModSpecification};

verus! {

/// Blank characters trimmed from both ends of a line.
pub open spec fn is_blank(c: char) -> bool {
    c == ' ' || c == '\t' || c == '\r'
}

/// The position of the first newline, or the length if there is none.
pub open spec fn find_nl(s: Seq<char>) -> int
    decreases s.len(),
{
    if s.len() == 0 {
        0
    } else if s.first() == '\n' {
        0
    } else {
        1 + find_nl(s.drop_first())
    }
}

proof fn lemma_find_nl(s: Seq<char>, k: int)
    requires
        0 <= k <= s.len(),
        forall|j: int| 0 <= j < k ==> s[j] != '\n',
        k < s.len() ==> s[k] == '\n',
    ensures
        find_nl(s) == k,
    decreases k,
{
    if k == 0 {
    } else {
        assert(s.first() != '\n');
        lemma_find_nl(s.drop_first(), k - 1);
    }
}

/// How many blanks the line starts with.
pub open spec fn lead_blanks(s: Seq<char>) -> int
    decreases s.len(),
{
    if s.len() == 0 {
        0
    } else if is_blank(s.first()) {
        1 + lead_blanks(s.drop_first())
    } else {
        0
    }
}

proof fn lemma_lead_blanks(s: Seq<char>, a: int)
    requires
        0 <= a <= s.len(),
        forall|j: int| 0 <= j < a ==> is_blank(s[j]),
        a < s.len() ==> !is_blank(s[a]),
    ensures
        lead_blanks(s) == a,
    decreases a,
{
    if a == 0 {
    } else {
        assert(is_blank(s.first()));
        lemma_lead_blanks(s.drop_first(), a - 1);
    }
}

/// How many blanks the line ends with.
pub open spec fn trail_blanks(s: Seq<char>) -> int
    decreases s.len(),
{
    if s.len() == 0 {
        0
    } else if is_blank(s.last()) {
        1 + trail_blanks(s.drop_last())
    } else {
        0
    }
}

proof fn lemma_trail_blanks(s: Seq<char>, b: int)
    requires
        0 <= b <= s.len(),
        forall|j: int| s.len() - b <= j < s.len() ==> is_blank(s[j]),
        b < s.len() ==> !is_blank(s[s.len() - b - 1]),
    ensures
        trail_blanks(s) == b,
    decreases b,
{
    if b == 0 {
    } else {
        assert(is_blank(s.last()));
        lemma_trail_blanks(s.drop_last(), b - 1);
    }
}

/// The line without its surrounding blanks.
pub open spec fn trim_blanks(s: Seq<char>) -> Seq<char> {
    if lead_blanks(s) == s.len() {
        Seq::empty()
    } else {
        s.subrange(lead_blanks(s), s.len() - trail_blanks(s))
    }
}

/// The identifiers named by the text: one per line, trimmed, blank
/// lines dropped, in order.
pub open spec fn mod_lines(s: Seq<char>) -> Seq<Seq<char>>
    decreases s.len(),
{
    let k = find_nl(s);
    let line = trim_blanks(s.subrange(0, if k < 0 { 0 } else if k > s.len() { s.len() as int } else { k }));
    let head: Seq<Seq<char>> = if line.len() == 0 {
        Seq::empty()
    } else {
        seq![line]
    };
    if 0 <= k < s.len() {
        head + mod_lines(s.subrange(k + 1, s.len() as int))
    } else {
        head
    }
}

/// Read one identifier per line, dropping surrounding blanks and
/// blank lines.
pub fn parse_mods(input: &str) -> (r: Vec<ModSpecification>)
    ensures
        r@.map_values(|m: ModSpecification| m@) == mod_lines(input@),
{
    let n = input.unicode_len();
    let mut out: Vec<ModSpecification> = Vec::new();
    let mut start: usize = 0;
    proof {
        assert(out@.map_values(|m: ModSpecification| m@) + mod_lines(
            input@.subrange(0, n as int),
        ) =~= mod_lines(input@.subrange(0, n as int)));
        assert(input@.subrange(0, n as int) =~= input@);
    }
    while start < n
        invariant
            start <= n,
            n == input@.len(),
            mod_lines(input@) == out@.map_values(|m: ModSpecification| m@) + mod_lines(
                input@.subrange(start as int, n as int),
            ),
        decreases n - start,
    {
        let ghost suffix = input@.subrange(start as int, n as int);
        let ghost outv = out@.map_values(|m: ModSpecification| m@);
        // Find the end of the line.
        let mut k: usize = start;
        while k < n
            invariant
                start <= k <= n,
                n == input@.len(),
                forall|j: int| start <= j < k ==> input@[j] != '\n',
            ensures
                start <= k <= n,
                n == input@.len(),
                forall|j: int| start <= j < k ==> input@[j] != '\n',
                k < n ==> input@[k as int] == '\n',
            decreases n - k,
        {
            if input.get_char(k) == '\n' {
                break ;
            }
            k = k + 1;
        }
        proof {
            assert(forall|j: int| 0 <= j < k - start ==> suffix[j] != '\n');
            if k < n {
                assert(suffix[k - start] == input@[k as int]);
            }
            lemma_find_nl(suffix, k - start as int);
        }
        // Trim blanks from both ends of the line.
        let ghost line = suffix.subrange(0, k - start as int);
        let mut t0: usize = start;
        while t0 < k
            invariant
                start <= t0 <= k <= n,
                n == input@.len(),
                forall|j: int| start <= j < t0 ==> is_blank(input@[j]),
            ensures
                start <= t0 <= k,
                forall|j: int| start <= j < t0 ==> is_blank(input@[j]),
                t0 < k ==> !is_blank(input@[t0 as int]),
            decreases k - t0,
        {
            let c = input.get_char(t0);
            if !(c == ' ' || c == '\t' || c == '\r') {
                break ;
            }
            t0 = t0 + 1;
        }
        proof {
            assert(forall|j: int| 0 <= j < t0 - start ==> is_blank(line[j]));
            if t0 < k {
                assert(line[t0 - start as int] == input@[t0 as int]);
            }
            lemma_lead_blanks(line, t0 - start as int);
        }
        if t0 == k {
            proof {
                assert(trim_blanks(line).len() == 0);
                if k < n {
                    assert(suffix.subrange(k - start as int + 1, suffix.len() as int)
                        =~= input@.subrange(k as int + 1, n as int));
                    assert(mod_lines(suffix) == mod_lines(
                        input@.subrange(k as int + 1, n as int),
                    ));
                } else {
                    assert(mod_lines(suffix) =~= Seq::<Seq<char>>::empty());
                    assert(outv + mod_lines(suffix) =~= outv);
                }
            }
            if k == n {
                proof {
                    assert(input@.subrange(n as int, n as int) =~= Seq::<char>::empty());
                    assert(mod_lines(input@.subrange(n as int, n as int)) =~= Seq::<
                        Seq<char>,
                    >::empty());
                    assert(outv + mod_lines(input@.subrange(n as int, n as int)) =~= outv);
                }
                start = n;
            } else {
                start = k + 1;
            }
        } else {
            let mut t1: usize = k;
            while t1 > t0
                invariant
                    t0 <= t1 <= k <= n,
                    t0 < k,
                    n == input@.len(),
                    forall|j: int| t1 <= j < k ==> is_blank(input@[j]),
                ensures
                    t0 <= t1 <= k,
                    forall|j: int| t1 <= j < k ==> is_blank(input@[j]),
                    t1 > t0 ==> !is_blank(input@[t1 as int - 1]),
                decreases t1 - t0,
            {
                let c = input.get_char(t1 - 1);
                if !(c == ' ' || c == '\t' || c == '\r') {
                    break ;
                }
                t1 = t1 - 1;
            }
            proof {
                assert(!is_blank(input@[t0 as int]));
                assert(t1 > t0) by {
                    if t1 == t0 {
                        assert(is_blank(input@[t0 as int]));
                    }
                }
                assert(forall|j: int| line.len() - (k - t1) <= j < line.len() ==> is_blank(
                    line[j],
                ));
                assert(!is_blank(line[k - start as int - (k - t1) - 1])) by {
                    assert(line[t1 - start as int - 1] == input@[t1 as int - 1]);
                    assert(!is_blank(input@[t1 as int - 1]));
                }
                lemma_trail_blanks(line, k - t1 as int);
                assert(lead_blanks(line) == t0 - start);
                assert(lead_blanks(line) < line.len());
                assert(trim_blanks(line) =~= input@.subrange(t0 as int, t1 as int));
            }
            let piece = input.substring_char(t0, t1);
            let url = String::from_str(piece);
            out.push(ModSpecification { url });
            proof {
                assert(out@.map_values(|m: ModSpecification| m@) =~= outv.push(
                    trim_blanks(line),
                ));
                if k < n {
                    assert(suffix.subrange(k - start as int + 1, suffix.len() as int)
                        =~= input@.subrange(k as int + 1, n as int));
                    assert(mod_lines(suffix) == seq![trim_blanks(line)] + mod_lines(
                        input@.subrange(k as int + 1, n as int),
                    ));
                    assert(outv.push(trim_blanks(line)) + mod_lines(
                        input@.subrange(k as int + 1, n as int),
                    ) =~= outv + mod_lines(suffix));
                } else {
                    assert(mod_lines(suffix) =~= seq![trim_blanks(line)]);
                    assert(outv.push(trim_blanks(line)) =~= outv + mod_lines(suffix));
                    assert(input@.subrange(n as int, n as int) =~= Seq::<char>::empty());
                    assert(mod_lines(input@.subrange(n as int, n as int)) =~= Seq::<
                        Seq<char>,
                    >::empty());
                }
            }
            if k == n {
                start = n;
            } else {
                start = k + 1;
            }
        }
    }
    proof {
        assert(input@.subrange(n as int, n as int) =~= Seq::<char>::empty());
        assert(mod_lines(input@.subrange(n as int, n as int)) =~= Seq::<Seq<char>>::empty());
        assert(out@.map_values(|m: ModSpecification| m@) + Seq::<Seq<char>>::empty() =~= out@.map_values(
            |m: ModSpecification| m@,
        ));
    }
    out
}

/// The text form of a selection: every enabled identifier, one per
/// line, each line ended by a newline.
pub open spec fn mod_string(mods: Seq<ConfigView>) -> Seq<char>
    decreases mods.len(),
{
    if mods.len() == 0 {
        Seq::empty()
    } else {
        mod_string(mods.drop_last()) + if mods.last().enabled {
            mods.last().id + seq!['\n']
        } else {
            Seq::empty()
        }
    }
}

/// Write the enabled identifiers, one per line.
pub fn build_mod_string(mods: &Vec<ModConfig>) -> (r: String)
    ensures
        r@ == mod_string(mods@.map_values(|m: ModConfig| m@)),
{
    let ghost views = mods@.map_values(|m: ModConfig| m@);
    let mut out = String::new();
    let mut i: usize = 0;
    proof {
        assert(views.take(0) =~= Seq::<ConfigView>::empty());
        assert(out@ =~= mod_string(views.take(0)));
    }
    while i < mods.len()
        invariant
            i <= mods@.len(),
            views == mods@.map_values(|m: ModConfig| m@),
            views.len() == mods@.len(),
            out@ == mod_string(views.take(i as int)),
        decreases mods@.len() - i,
    {
        let ghost pre = out@;
        proof {
            assert(views[i as int] == mods@[i as int]@);
        }
        if mods[i].enabled {
            out.append(mods[i].spec.url.as_str());
            out.append("\n");
            proof {
                reveal_strlit("\n");
                assert("\n"@ =~= seq!['\n']);
                assert(out@ =~= pre + (views[i as int].id + seq!['\n']));
            }
        }
        proof {
            assert(views.take(i as int + 1).drop_last() =~= views.take(i as int));
            assert(views.take(i as int + 1).last() == views[i as int]);
            assert(out@ =~= mod_string(views.take(i as int + 1)));
        }
        i = i + 1;
    }
    proof {
        assert(views.take(views.len() as int) =~= views);
    }
    out
}

} // verus!
