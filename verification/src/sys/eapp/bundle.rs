//! Game bundle manifests: the image paths a `Manifest.plist` lists.
use vstd::prelude::*;
use crate::parse::{chars_of, find_sub, find_sub_from, find_sub_exec, lemma_find_sub_bounds, lower, occurs_at, string_of};

verus! {

/// The paths of the `<key>Path</key>` entries of `text`, each the text of
/// the next `<string>` element; `None` when an entry has no complete
/// string element after it.
pub open spec fn manifest_paths_from(text: Seq<char>) -> Option<Seq<Seq<char>>>
    decreases text.len(),
{
    match find_sub(text, "<key>Path</key>"@) {
        None => Some(Seq::empty()),
        Some(i) => {
            proof {
                reveal_strlit("<key>Path</key>");
                reveal_strlit("<string>");
                reveal_strlit("</string>");
                lemma_find_sub_bounds(text, "<key>Path</key>"@, 0);
            }
            let r1 = text.skip(i + 15);
            match find_sub(r1, "<string>"@) {
                None => None,
                Some(s) => {
                    proof {
                        lemma_find_sub_bounds(r1, "<string>"@, 0);
                    }
                    match find_sub(r1.skip(s + 8), "</string>"@) {
                        None => None,
                        Some(e) => {
                            proof {
                                lemma_find_sub_bounds(r1.skip(s + 8), "</string>"@, 0);
                            }
                            match manifest_paths_from(r1.skip(s + 8 + e)) {
                                None => None,
                                Some(ps) => Some(seq![r1.subrange(s + 8, s + 8 + e)] + ps),
                            }
                        },
                    }
                },
            }
        },
    }
}

/// The manifest's image paths, or `None` when there are none or an entry
/// is incomplete.
pub open spec fn manifest_paths(text: Seq<char>) -> Option<Seq<Seq<char>>> {
    match manifest_paths_from(text) {
        Some(ps) => if ps.len() > 0 { Some(ps) } else { None },
        None => None,
    }
}

fn pattern(s: &str) -> (v: Vec<char>)
    ensures
        v@ == s@,
{
    chars_of(s)
}

/// The image paths listed by a manifest's text (see `manifest_paths`).
pub fn manifest_texture_paths(text: &str) -> (r: Option<Vec<String>>)
    ensures
        match manifest_paths(text@) {
            Some(ps) => r matches Some(v) && v@.map_values(|s: String| s@) == ps,
            None => r is None,
        },
{
    proof {
        reveal_strlit("<key>Path</key>");
        reveal_strlit("<string>");
        reveal_strlit("</string>");
    }
    let cs = chars_of(text);
    let key = pattern("<key>Path</key>");
    let open = pattern("<string>");
    let close = pattern("</string>");
    let mut paths: Vec<String> = Vec::new();
    let mut rest: usize = 0;
    assert(cs@.skip(0) =~= cs@);
    assert(paths@.map_values(|s: String| s@) + Seq::<Seq<char>>::empty() =~= Seq::<Seq<char>>::empty());
    loop
        invariant
            cs@ == text@,
            cs@.len() == cs.len(),
            key@ == "<key>Path</key>"@,
            open@ == "<string>"@,
            close@ == "</string>"@,
            rest <= cs@.len(),
            manifest_paths_from(text@) == match manifest_paths_from(cs@.skip(rest as int)) {
                None => None,
                Some(ps) => Some(paths@.map_values(|s: String| s@) + ps),
            },
        ensures
            manifest_paths_from(text@) == Some(paths@.map_values(|s: String| s@)),
        decreases cs@.len() - rest,
    {
        proof {
            reveal_strlit("<key>Path</key>");
            reveal_strlit("<string>");
            reveal_strlit("</string>");
        }
        let ghost t = cs@.skip(rest as int);
        let i = match find_sub_exec(cs.as_slice(), key.as_slice(), rest) {
            None => {
                proof {
                    lemma_find_sub_skip(cs@, key@, rest as int);
                    assert(manifest_paths_from(t) == Some(Seq::<Seq<char>>::empty()));
                    assert(paths@.map_values(|s: String| s@) + Seq::<Seq<char>>::empty() =~= paths@.map_values(|s: String| s@));
                }
                break;
            },
            Some(i) => i,
        };
        proof {
            lemma_find_sub_skip(cs@, key@, rest as int);
            lemma_find_sub_bounds(cs@, key@, rest as int);
        }
        let r1 = i + 15;
        let s = match find_sub_exec(cs.as_slice(), open.as_slice(), r1) {
            None => {
                proof {
                    lemma_find_sub_skip(cs@, open@, r1 as int);
                    assert(t.skip(i - rest + 15) =~= cs@.skip(r1 as int));
                    assert(manifest_paths_from(t) is None);
                }
                return None;
            },
            Some(s) => s,
        };
        proof {
            lemma_find_sub_skip(cs@, open@, r1 as int);
            lemma_find_sub_bounds(cs@, open@, r1 as int);
            assert(t.skip(i - rest + 15) =~= cs@.skip(r1 as int));
        }
        let body = s + 8;
        let e = match find_sub_exec(cs.as_slice(), close.as_slice(), body) {
            None => {
                proof {
                    lemma_find_sub_skip(cs@, close@, body as int);
                    assert(t.skip(i - rest + 15) =~= cs@.skip(r1 as int));
                    assert(cs@.skip(r1 as int).skip(s - r1 + 8) =~= cs@.skip(body as int));
                    assert(manifest_paths_from(t) is None);
                }
                return None;
            },
            Some(e) => e,
        };
        proof {
            lemma_find_sub_skip(cs@, close@, body as int);
            lemma_find_sub_bounds(cs@, close@, body as int);
            assert(cs@.skip(r1 as int).skip(s - r1 + 8) =~= cs@.skip(body as int));
            assert(cs@.skip(r1 as int).skip(s - r1 + 8 + (e - body)) =~= cs@.skip(e as int));
            assert(cs@.skip(r1 as int).subrange(s - r1 + 8, s - r1 + 8 + (e - body)) =~= cs@.subrange(body as int, e as int));
            assert(t.skip(i - rest + 15) =~= cs@.skip(r1 as int));
            assert(manifest_paths_from(t) == match manifest_paths_from(cs@.skip(e as int)) {
                None => None,
                Some(ps) => Some(seq![cs@.subrange(body as int, e as int)] + ps),
            });
        }
        let p = string_of(cs.as_slice(), body, e);
        let ghost before = paths@.map_values(|s: String| s@);
        paths.push(p);
        proof {
            assert(paths@.map_values(|s: String| s@) =~= before.push(cs@.subrange(body as int, e as int)));
            match manifest_paths_from(cs@.skip(e as int)) {
                None => {},
                Some(ps) => {
                    assert(before + (seq![cs@.subrange(body as int, e as int)] + ps)
                        =~= paths@.map_values(|s: String| s@) + ps);
                },
            }
        }
        rest = e;
    }
    assert(manifest_paths_from(text@) == Some(paths@.map_values(|s: String| s@)));
    if paths.len() == 0 {
        return None;
    }
    Some(paths)
}

/// Searching a suffix: positions shift by where the suffix starts.
proof fn lemma_find_sub_skip(s: Seq<char>, pat: Seq<char>, from: int)
    requires
        0 <= from <= s.len(),
    ensures
        find_sub(s.skip(from), pat) == match find_sub_from(s, pat, from) {
            Some(i) => Some(i - from),
            None => None::<int>,
        },
{
    lemma_find_sub_skip_at(s, pat, from, from);
}

proof fn lemma_find_sub_skip_at(s: Seq<char>, pat: Seq<char>, from: int, at: int)
    requires
        0 <= from <= at <= s.len(),
    ensures
        find_sub_from(s.skip(from), pat, at - from) == match find_sub_from(s, pat, at) {
            Some(i) => Some(i - from),
            None => None::<int>,
        },
    decreases s.len() - at,
{
    let t = s.skip(from);
    if pat.len() == 0 {
        assert(s.subrange(at, at) =~= pat);
        assert(t.subrange(at - from, at - from) =~= pat);
    }
    if at + pat.len() <= s.len() {
        assert(t.subrange(at - from, at - from + pat.len()) =~= s.subrange(at, at + pat.len()));
        if !occurs_at(s, pat, at) {
            lemma_find_sub_skip_at(s, pat, from, at + 1);
        }
    }
}

/// Whether `s` contains `pat`.
pub open spec fn contains_sub(s: Seq<char>, pat: Seq<char>) -> bool {
    find_sub(s, pat) is Some
}

/// `s` with every backslash turned into a slash.
pub open spec fn forward_slashes(s: Seq<char>) -> Seq<char> {
    s.map_values(|c: char| if c == '\\' { '/' } else { c })
}

/// The manifest paths to load, relative to the bundle: those that do not
/// name the executables directory (in any case), with slashes.
pub open spec fn bundle_relative_paths(paths: Seq<Seq<char>>) -> Seq<Seq<char>>
    decreases paths.len(),
{
    if paths.len() == 0 {
        Seq::empty()
    } else {
        let rest = bundle_relative_paths(paths.drop_last());
        if contains_sub(lower(paths.last()), "executables"@) {
            rest
        } else {
            rest.push(forward_slashes(paths.last()))
        }
    }
}

/// Drop the manifest paths into the executables directory and normalise
/// the separators (see `bundle_relative_paths`).
pub fn manifest_relative_paths(paths: &Vec<String>) -> (out: Vec<String>)
    ensures
        out@.map_values(|s: String| s@) == bundle_relative_paths(paths@.map_values(|s: String| s@)),
{
    proof {
        reveal_strlit("executables");
    }
    let ghost ps = paths@.map_values(|s: String| s@);
    let needle = pattern("executables");
    let mut out: Vec<String> = Vec::new();
    let mut k: usize = 0;
    while k < paths.len()
        invariant
            ps == paths@.map_values(|s: String| s@),
            needle@ == "executables"@,
            k <= paths@.len(),
            out@.map_values(|s: String| s@) == bundle_relative_paths(ps.take(k as int)),
        decreases paths@.len() - k,
    {
        proof {
            assert(ps.take(k + 1).drop_last() =~= ps.take(k as int));
            assert(ps.take(k + 1).last() == paths@[k as int]@);
        }
        let cs = chars_of(paths[k].as_str());
        let n = cs.len();
        let low = chars_of(crate::parse::lower_string_of(cs.as_slice(), 0, n).as_str());
        assert(cs@.subrange(0, n as int) =~= cs@);
        let hit = find_sub_exec(low.as_slice(), needle.as_slice(), 0);
        if hit.is_none() {
            let mut fixed = String::new();
            let mut j: usize = 0;
            while j < n
                invariant
                    n == cs@.len(),
                    j <= n,
                    fixed@ == forward_slashes(cs@.take(j as int)),
                decreases n - j,
            {
                let c = cs[j];
                crate::parse::push_char(&mut fixed, if c == '\\' { '/' } else { c });
                j += 1;
                assert(fixed@ =~= forward_slashes(cs@.take(j as int)));
            }
            assert(cs@.take(n as int) =~= cs@);
            let ghost before = out@.map_values(|s: String| s@);
            out.push(fixed);
            assert(out@.map_values(|s: String| s@) =~= before.push(forward_slashes(cs@)));
        }
        k += 1;
    }
    assert(ps.take(ps.len() as int) =~= ps);
    out
}

} // verus!
