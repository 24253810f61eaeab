//! Tag parsing: each repeatable `key,value` argument contributes one
//! entry. The key is everything before the first comma, trimmed; the
//! value is everything after it with further commas removed, trimmed;
//! an empty key drops the entry, a lone key maps to the empty value,
//! and a later key overwrites an earlier one.

use vstd::prelude::*;
use crate::strings::{spec_trim, trim_str, str_eq};

verus! {

/// Some character of `s` is a comma.
pub open spec fn spec_has_comma(s: Seq<char>) -> bool {
    exists|k: int| 0 <= k < s.len() && s[k] == ','
}

/// Everything before the first comma of `s` (all of `s` if none).
pub open spec fn spec_before_comma(s: Seq<char>) -> Seq<char>
    decreases s.len(),
{
    if s.len() == 0 {
        s
    } else if s[0] == ',' {
        Seq::<char>::empty()
    } else {
        seq![s[0]] + spec_before_comma(s.skip(1))
    }
}

/// Everything after the first comma of `s` (empty if none).
pub open spec fn spec_after_comma(s: Seq<char>) -> Seq<char>
    decreases s.len(),
{
    if s.len() == 0 {
        Seq::<char>::empty()
    } else if s[0] == ',' {
        s.skip(1)
    } else {
        spec_after_comma(s.skip(1))
    }
}

/// `s` with every comma removed.
pub open spec fn spec_drop_commas(s: Seq<char>) -> Seq<char>
    decreases s.len(),
{
    if s.len() == 0 {
        s
    } else if s[0] == ',' {
        spec_drop_commas(s.skip(1))
    } else {
        seq![s[0]] + spec_drop_commas(s.skip(1))
    }
}

/// The entry one argument contributes: a trimmed key before the first
/// comma and a trimmed, comma-free value after it; no entry when the
/// key trims to nothing.
pub open spec fn spec_tag_entry(s: Seq<char>) -> Option<(Seq<char>, Seq<char>)> {
    if !spec_has_comma(s) {
        if spec_trim(s).len() == 0 {
            None
        } else {
            Some((spec_trim(s), Seq::<char>::empty()))
        }
    } else {
        let key = spec_trim(spec_before_comma(s));
        if key.len() == 0 {
            None
        } else {
            Some((key, spec_trim(spec_drop_commas(spec_after_comma(s)))))
        }
    }
}

/// The tag mapping of a whole argument list; later keys overwrite.
pub open spec fn spec_tag_map(args: Seq<String>) -> Map<Seq<char>, Seq<char>>
    decreases args.len(),
{
    if args.len() == 0 {
        Map::<Seq<char>, Seq<char>>::empty()
    } else {
        let m = spec_tag_map(args.drop_last());
        match spec_tag_entry(args.last()@) {
            None => m,
            Some(kv) => m.insert(kv.0, kv.1),
        }
    }
}

/// Association pairs read as a map, later pairs overwriting.
pub open spec fn spec_pairs_map(ps: Seq<(String, String)>) -> Map<Seq<char>, Seq<char>>
    decreases ps.len(),
{
    if ps.len() == 0 {
        Map::<Seq<char>, Seq<char>>::empty()
    } else {
        spec_pairs_map(ps.drop_last()).insert(ps.last().0@, ps.last().1@)
    }
}

/// No two pairs carry the same key.
pub open spec fn spec_keys_unique(ps: Seq<(String, String)>) -> bool {
    forall|i: int, j: int| 0 <= i < j < ps.len() ==> ps[i].0@ != ps[j].0@
}

/// Splitting at the first comma matches the recursive specs.
proof fn lemma_comma_split(s: Seq<char>, c: int)
    requires
        0 <= c < s.len(),
        forall|k: int| 0 <= k < c ==> s[k] != ',',
        s[c] == ',',
    ensures
        spec_has_comma(s),
        spec_before_comma(s) == s.take(c),
        spec_after_comma(s) == s.skip(c + 1),
    decreases c,
{
    if c == 0 {
        assert(spec_before_comma(s) =~= s.take(0));
        assert(spec_after_comma(s) =~= s.skip(1));
    } else {
        lemma_comma_split(s.skip(1), c - 1);
        assert(s.skip(1).take(c - 1) =~= s.take(c).skip(1));
        assert(seq![s[0]] + s.take(c).skip(1) =~= s.take(c));
        assert(spec_before_comma(s) =~= s.take(c));
        assert(s.skip(1).skip(c - 1 + 1) =~= s.skip(c + 1));
    }
}

/// Overwriting a key in place reads as a map insert.
proof fn lemma_pairs_map_update(ps: Seq<(String, String)>, j: int, k: String, v: String)
    requires
        0 <= j < ps.len(),
        spec_keys_unique(ps),
        ps[j].0@ == k@,
    ensures
        spec_pairs_map(ps.update(j, (k, v))) == spec_pairs_map(ps).insert(k@, v@),
    decreases ps.len(),
{
    let upd = ps.update(j, (k, v));
    if j == ps.len() - 1 {
        assert(upd.drop_last() =~= ps.drop_last());
        assert(upd.last() == (k, v));
        assert(spec_pairs_map(upd) =~= spec_pairs_map(ps).insert(k@, v@));
    } else {
        assert(upd.drop_last() =~= ps.drop_last().update(j, (k, v)));
        assert(upd.last() == ps.last());
        assert(spec_keys_unique(ps.drop_last()));
        lemma_pairs_map_update(ps.drop_last(), j, k, v);
        assert(ps[j].0@ != ps.last().0@);
        assert(spec_pairs_map(upd) =~= spec_pairs_map(ps).insert(k@, v@));
    }
}

/// Computes the entry one argument contributes.
fn tag_entry(arg: &str) -> (r: Option<(String, String)>)
    ensures
        match r {
            Some(kv) => spec_tag_entry(arg@) matches Some(s) && kv.0@ == s.0 && kv.1@ == s.1,
            None => spec_tag_entry(arg@) is None,
        },
{
    let n = arg.unicode_len();
    let mut c: usize = 0;
    while c < n && arg.get_char(c) != ','
        invariant
            0 <= c <= n,
            n == arg@.len(),
            forall|k: int| 0 <= k < c ==> arg@[k] != ',',
        decreases n - c,
    {
        c = c + 1;
    }
    if c == n {
        proof {
            assert(!spec_has_comma(arg@));
        }
        let k = trim_str(arg);
        if k.unicode_len() == 0 {
            None
        } else {
            Some((k, String::new()))
        }
    } else {
        proof {
            lemma_comma_split(arg@, c as int);
        }
        let before = arg.substring_char(0, c);
        assert(before@ =~= arg@.take(c as int));
        let key = trim_str(before);
        if key.unicode_len() == 0 {
            None
        } else {
            let mut raw = String::new();
            let mut i: usize = c + 1;
            proof {
                assert(raw@ + spec_drop_commas(arg@.skip(c as int + 1)) =~= spec_drop_commas(
                    arg@.skip(c as int + 1),
                ));
            }
            while i < n
                invariant
                    c < i <= n || i == c + 1,
                    c + 1 <= i <= n,
                    n == arg@.len(),
                    spec_drop_commas(arg@.skip(c as int + 1)) == raw@ + spec_drop_commas(
                        arg@.skip(i as int),
                    ),
                decreases n - i,
            {
                let ghost tail = arg@.skip(i as int);
                let ch = arg.substring_char(i, i + 1);
                proof {
                    assert(tail.skip(1) =~= arg@.skip(i as int + 1));
                    assert(seq![tail[0]] =~= ch@);
                }
                if !str_eq(ch, ",") {
                    proof {
                        reveal_strlit(",");
                        if tail[0] == ',' {
                            assert(ch@ =~= ","@);
                        }
                        assert(tail[0] != ',');
                        assert(spec_drop_commas(tail) == ch@ + spec_drop_commas(
                            arg@.skip(i as int + 1),
                        ));
                    }
                    raw.append(ch);
                } else {
                    proof {
                        reveal_strlit(",");
                        assert(tail[0] == ',');
                        assert(spec_drop_commas(tail) == spec_drop_commas(
                            arg@.skip(i as int + 1),
                        ));
                    }
                }
                i = i + 1;
            }
            proof {
                assert(arg@.skip(n as int) =~= Seq::<char>::empty());
                assert(raw@ + Seq::<char>::empty() =~= raw@);
            }
            let value = trim_str(raw.as_str());
            Some((key, value))
        }
    }
}

/// Builds the tag mapping of an argument list as unique-keyed pairs.
pub fn get_tag_map(args: &Vec<String>) -> (r: Vec<(String, String)>)
    ensures
        spec_keys_unique(r@),
        spec_pairs_map(r@) == spec_tag_map(args@),
{
    let ghost all = args@;
    let mut out: Vec<(String, String)> = Vec::new();
    let mut i: usize = 0;
    proof {
        assert(all.take(0) =~= Seq::<String>::empty());
    }
    while i < args.len()
        invariant
            0 <= i <= all.len(),
            all == args@,
            spec_keys_unique(out@),
            spec_pairs_map(out@) == spec_tag_map(all.take(i as int)),
        decreases all.len() - i,
    {
        proof {
            assert(all.take(i as int + 1).drop_last() =~= all.take(i as int));
            assert(all.take(i as int + 1).last() == all[i as int]);
        }
        match tag_entry(args[i].as_str()) {
            None => {},
            Some(kv) => {
                let (k, v) = kv;
                let mut j: usize = 0;
                let mut at: usize = 0;
                let mut found = false;
                while j < out.len()
                    invariant
                        0 <= j <= out@.len(),
                        !found ==> forall|q: int| 0 <= q < j ==> out@[q].0@ != k@,
                        found ==> at < out@.len() && out@[at as int].0@ == k@,
                    decreases out@.len() - j,
                {
                    if !found && str_eq(out[j].0.as_str(), k.as_str()) {
                        found = true;
                        at = j;
                    }
                    j = j + 1;
                }
                if found {
                    let ghost before = out@;
                    proof {
                        lemma_pairs_map_update(out@, at as int, k, v);
                    }
                    out[at] = (k, v);
                    proof {
                        assert(out@ =~= before.update(at as int, out@[at as int]));
                    }
                } else {
                    let ghost before = out@;
                    out.push((k, v));
                    proof {
                        assert(out@.drop_last() =~= before);
                    }
                }
            },
        }
        i = i + 1;
    }
    proof {
        assert(all.take(all.len() as int) =~= all);
    }
    out
}

} // verus!
