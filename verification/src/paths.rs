//! Slash-separated path handling: splitting into components, normalizing
//! `.` and `..` components, and sanitizing untrusted archive-entry paths so
//! that every materialized file stays strictly inside its target directory.

use vstd::prelude::*;

verus! {

/// Relies on String::push: appends one character to the string.
pub assume_specification[ String::push ](s: &mut String, c: char)
    ensures
        final(s)@ == old(s)@.push(c),
;

/// The components of `p` split at every `/`, keeping empty pieces: the
/// leading empty piece of an absolute path, and those produced by doubled
/// or trailing separators.
pub open spec fn split_slash(p: Seq<char>) -> Seq<Seq<char>>
    decreases p.len(),
{
    if p.len() == 0 {
        seq![Seq::empty()]
    } else if p.last() == '/' {
        split_slash(p.drop_last()).push(Seq::empty())
    } else {
        let rest = split_slash(p.drop_last());
        rest.update(rest.len() - 1, rest.last().push(p.last()))
    }
}

/// A component that names no directory: empty, or the current directory.
pub open spec fn seg_is_skipped(s: Seq<char>) -> bool {
    s.len() == 0 || s == seq!['.']
}

/// The parent-directory component.
pub open spec fn seg_is_parent(s: Seq<char>) -> bool {
    s == seq!['.', '.']
}

/// Whether any component walks toward a parent directory.
pub open spec fn has_parent_segment(parts: Seq<Seq<char>>) -> bool {
    exists|i: int| 0 <= i < parts.len() && seg_is_parent(#[trigger] parts[i])
}

/// The components that name a directory or file, in order.
pub open spec fn kept_segments(parts: Seq<Seq<char>>) -> Seq<Seq<char>>
    decreases parts.len(),
{
    if parts.len() == 0 {
        Seq::empty()
    } else {
        let rest = kept_segments(parts.drop_last());
        if seg_is_skipped(parts.last()) {
            rest
        } else {
            rest.push(parts.last())
        }
    }
}

/// The sanitized relative path of an untrusted archive entry: its
/// components without empty and current-directory pieces, or nothing when
/// the entry must be rejected — when a component walks toward a parent
/// directory, or when no component is left.
pub open spec fn spec_sanitize(p: Seq<char>) -> Option<Seq<Seq<char>>> {
    let parts = split_slash(p);
    if has_parent_segment(parts) {
        Option::None
    } else {
        let kept = kept_segments(parts);
        if kept.len() == 0 {
            Option::None
        } else {
            Option::Some(kept)
        }
    }
}

/// A path component that can only name an entry strictly inside its parent:
/// nonempty, not a dot component, and free of separators.
pub open spec fn safe_segment(s: Seq<char>) -> bool {
    &&& s.len() > 0
    &&& s != seq!['.']
    &&& s != seq!['.', '.']
    &&& forall|k: int| 0 <= k < s.len() ==> s[k] != '/'
}

proof fn lemma_split_slash_no_slash(p: Seq<char>)
    ensures
        forall|i: int, k: int|
            0 <= i < split_slash(p).len() && 0 <= k < split_slash(p)[i].len() ==> (
            #[trigger] split_slash(p)[i][k]) != '/',
    decreases p.len(),
{
    if p.len() == 0 {
    } else {
        lemma_split_slash_no_slash(p.drop_last());
        lemma_split_slash_nonempty(p.drop_last());
        let rest = split_slash(p.drop_last());
        let s = split_slash(p);
        if p.last() == '/' {
            assert(s == rest.push(Seq::empty()));
            assert forall|i: int, k: int|
                0 <= i < s.len() && 0 <= k < s[i].len() implies (#[trigger] s[i][k]) != '/' by {
                if i < rest.len() {
                    assert(s[i] == rest[i]);
                    assert(rest[i][k] != '/');
                } else {
                    assert(s[i].len() == 0);
                }
            }
        } else {
            assert(s == rest.update(rest.len() - 1, rest.last().push(p.last())));
            assert forall|i: int, k: int|
                0 <= i < s.len() && 0 <= k < s[i].len() implies (#[trigger] s[i][k]) != '/' by {
                if i < rest.len() - 1 {
                    assert(s[i] == rest[i]);
                    assert(rest[i][k] != '/');
                } else {
                    assert(s[i] == rest.last().push(p.last()));
                    if k < rest.last().len() {
                        assert(s[i][k] == rest[rest.len() - 1][k]);
                        assert(rest[rest.len() - 1][k] != '/');
                    } else {
                        assert(s[i][k] == p.last());
                    }
                }
            }
        }
    }
}

proof fn lemma_split_slash_nonempty(p: Seq<char>)
    ensures
        split_slash(p).len() > 0,
    decreases p.len(),
{
    if p.len() > 0 {
        lemma_split_slash_nonempty(p.drop_last());
    }
}

proof fn lemma_kept_segments_from(parts: Seq<Seq<char>>)
    ensures
        forall|i: int|
            0 <= i < kept_segments(parts).len() ==> parts.contains(
                #[trigger] kept_segments(parts)[i],
            ) && !seg_is_skipped(kept_segments(parts)[i]),
    decreases parts.len(),
{
    broadcast use vstd::seq_lib::lemma_seq_contains_after_push;

    if parts.len() > 0 {
        lemma_kept_segments_from(parts.drop_last());
        let rest = parts.drop_last();
        let ks = kept_segments(parts);
        let krest = kept_segments(rest);
        assert(parts =~= rest.push(parts.last()));
        assert forall|i: int|
            0 <= i < ks.len() implies parts.contains(#[trigger] ks[i]) && !seg_is_skipped(
            ks[i],
        ) by {
            if seg_is_skipped(parts.last()) {
                assert(ks == krest);
                assert(rest.contains(krest[i]));
                assert(rest.push(parts.last()).contains(ks[i]));
            } else {
                assert(ks == krest.push(parts.last()));
                if i < krest.len() {
                    assert(ks[i] == krest[i]);
                    assert(rest.contains(krest[i]));
                    assert(rest.push(parts.last()).contains(ks[i]));
                } else {
                    assert(ks[i] == parts.last());
                    assert(parts[parts.len() - 1] == parts.last());
                    assert(parts.contains(parts.last()));
                }
            }
        }
    }
}

/// Law: every component of a sanitized entry path is safe — nonempty, not
/// `.` or `..`, and without separators — so the joined path resolves
/// strictly inside the directory it is joined to.
pub proof fn lemma_sanitize_segments_safe(p: Seq<char>)
    ensures
        spec_sanitize(p) matches Option::Some(segs) ==> forall|i: int|
            0 <= i < segs.len() ==> safe_segment(#[trigger] segs[i]),
{
    if spec_sanitize(p) is Some {
        let parts = split_slash(p);
        let segs = kept_segments(parts);
        lemma_split_slash_no_slash(p);
        lemma_kept_segments_from(parts);
        assert forall|i: int| 0 <= i < segs.len() implies safe_segment(#[trigger] segs[i]) by {
            assert(parts.contains(segs[i]));
            let j = choose|j: int| 0 <= j < parts.len() && parts[j] == segs[i];
            assert(!seg_is_parent(parts[j]));
            assert(forall|k: int| 0 <= k < segs[i].len() ==> parts[j][k] != '/');
        }
    }
}

/// Splits at `/`, keeping empty pieces; the executable image of
/// `split_slash`.
fn split_slash_exec(path: &str) -> (parts: Vec<String>)
    ensures
        parts@.map_values(|s: String| s@) == split_slash(path@),
        parts@.len() > 0,
{
    let n = path.unicode_len();
    let mut parts: Vec<String> = Vec::new();
    parts.push(String::new());
    proof {
        assert(parts@.map_values(|s: String| s@) =~= split_slash(path@.take(0)));
    }
    let mut i: usize = 0;
    while i < n
        invariant
            n == path@.len(),
            i <= n,
            parts@.len() > 0,
            parts@.map_values(|s: String| s@) == split_slash(path@.take(i as int)),
        decreases n - i,
    {
        let c = path.get_char(i);
        let ghost pre = parts@.map_values(|s: String| s@);
        proof {
            assert(path@.take(i as int + 1).drop_last() =~= path@.take(i as int));
            assert(path@.take(i as int + 1).last() == path@[i as int]);
        }
        if c == '/' {
            parts.push(String::new());
            proof {
                assert(parts@.map_values(|s: String| s@) =~= pre.push(Seq::empty()));
            }
        } else {
            let last_idx = parts.len() - 1;
            let mut seg = parts.remove(last_idx);
            seg.push(c);
            parts.push(seg);
            proof {
                assert(parts@.map_values(|s: String| s@) =~= pre.update(
                    pre.len() - 1,
                    pre.last().push(path@[i as int]),
                ));
            }
        }
        i += 1;
    }
    proof {
        assert(path@.take(n as int) =~= path@);
    }
    parts
}

/// Whether the string is exactly the current-directory component.
fn is_cur_dir(seg: &String) -> (r: bool)
    ensures
        r == seg_is_skipped(seg@),
{
    let n = seg.as_str().unicode_len();
    if n == 0 {
        return true;
    }
    if n == 1 && seg.as_str().get_char(0) == '.' {
        proof {
            assert(seg@ =~= seq!['.']);
        }
        return true;
    }
    proof {
        if seg@ == seq!['.'] {
            assert(seg@.len() == 1 && seg@[0] == '.');
        }
    }
    false
}

/// Whether the string is exactly the parent-directory component.
fn is_parent_dir(seg: &String) -> (r: bool)
    ensures
        r == seg_is_parent(seg@),
{
    let n = seg.as_str().unicode_len();
    if n == 2 && seg.as_str().get_char(0) == '.' && seg.as_str().get_char(1) == '.' {
        proof {
            assert(seg@ =~= seq!['.', '.']);
        }
        true
    } else {
        proof {
            if seg@ == seq!['.', '.'] {
                assert(seg@.len() == 2 && seg@[0] == '.' && seg@[1] == '.');
            }
        }
        false
    }
}

/// Sanitizes one untrusted archive-entry path: drops empty and
/// current-directory components, rejects the entry when a component walks
/// toward a parent directory or nothing is left. Every returned component
/// is safe in the sense of `safe_segment`.
pub fn sanitize_entry_path(name: &str) -> (r: Option<Vec<String>>)
    ensures
        match r {
            Option::Some(segs) => spec_sanitize(name@) matches Option::Some(ss) && segs@.map_values(
                |s: String| s@,
            ) == ss,
            Option::None => spec_sanitize(name@) is None,
        },
{
    let parts = split_slash_exec(name);
    let ghost pv = split_slash(name@);
    let mut kept: Vec<String> = Vec::new();
    let mut k: usize = 0;
    proof {
        assert(kept@.map_values(|s: String| s@) =~= kept_segments(pv.take(0)));
    }
    while k < parts.len()
        invariant
            k <= parts@.len(),
            pv == split_slash(name@),
            parts@.map_values(|s: String| s@) == pv,
            pv.len() == parts@.len(),
            forall|j: int| 0 <= j < k ==> !seg_is_parent(#[trigger] pv[j]),
            kept@.map_values(|s: String| s@) == kept_segments(pv.take(k as int)),
        decreases parts@.len() - k,
    {
        proof {
            assert(pv[k as int] == parts@[k as int]@);
            assert(pv.take(k as int + 1).drop_last() =~= pv.take(k as int));
            assert(pv.take(k as int + 1).last() == pv[k as int]);
        }
        let ghost pre = kept@.map_values(|s: String| s@);
        if is_parent_dir(&parts[k]) {
            proof {
                assert(seg_is_parent(pv[k as int]));
                assert(has_parent_segment(pv));
            }
            return None;
        }
        if !is_cur_dir(&parts[k]) {
            kept.push(parts[k].clone());
            proof {
                assert(kept@.map_values(|s: String| s@) =~= pre.push(pv[k as int]));
            }
        }
        k += 1;
    }
    proof {
        assert(pv.take(pv.len() as int) =~= pv);
        if has_parent_segment(pv) {
            let j = choose|j: int| 0 <= j < pv.len() && seg_is_parent(#[trigger] pv[j]);
            assert(false);
        }
    }
    if kept.len() == 0 {
        None
    } else {
        Some(kept)
    }
}

/// The directory stack after walking the components left to right: skipped
/// components vanish, a parent component pops the stack (and is dropped at
/// the root), any other component is pushed.
pub open spec fn norm_stack(parts: Seq<Seq<char>>) -> Seq<Seq<char>>
    decreases parts.len(),
{
    if parts.len() == 0 {
        Seq::empty()
    } else {
        let rest = norm_stack(parts.drop_last());
        let last = parts.last();
        if seg_is_skipped(last) {
            rest
        } else if seg_is_parent(last) {
            if rest.len() == 0 {
                rest
            } else {
                rest.drop_last()
            }
        } else {
            rest.push(last)
        }
    }
}

/// The components joined with `/` between each pair.
pub open spec fn join_slash(parts: Seq<Seq<char>>) -> Seq<char>
    decreases parts.len(),
{
    if parts.len() == 0 {
        Seq::empty()
    } else if parts.len() == 1 {
        parts[0]
    } else {
        join_slash(parts.drop_last()) + seq!['/'] + parts.last()
    }
}

/// The normalized image of a slash path: empty and `.` components dropped,
/// `..` resolved against the walked prefix, the leading separator of an
/// absolute path kept.
pub open spec fn spec_normalize(p: Seq<char>) -> Seq<char> {
    let stack = norm_stack(split_slash(p));
    if p.len() > 0 && p[0] == '/' {
        seq!['/'] + join_slash(stack)
    } else {
        join_slash(stack)
    }
}

/// Normalizes a slash path lexically: resolves `.` and `..` components
/// without consulting the filesystem, and keeps an absolute path absolute.
pub fn normalize_path(path: &str) -> (r: String)
    ensures
        r@ == spec_normalize(path@),
{
    let parts = split_slash_exec(path);
    let ghost pv = split_slash(path@);
    let mut stack: Vec<String> = Vec::new();
    let mut k: usize = 0;
    proof {
        assert(stack@.map_values(|s: String| s@) =~= norm_stack(pv.take(0)));
    }
    while k < parts.len()
        invariant
            k <= parts@.len(),
            pv == split_slash(path@),
            parts@.map_values(|s: String| s@) == pv,
            pv.len() == parts@.len(),
            stack@.map_values(|s: String| s@) == norm_stack(pv.take(k as int)),
        decreases parts@.len() - k,
    {
        proof {
            assert(pv[k as int] == parts@[k as int]@);
            assert(pv.take(k as int + 1).drop_last() =~= pv.take(k as int));
            assert(pv.take(k as int + 1).last() == pv[k as int]);
        }
        let ghost pre = stack@.map_values(|s: String| s@);
        if is_cur_dir(&parts[k]) {
        } else if is_parent_dir(&parts[k]) {
            if stack.len() > 0 {
                let _dropped = stack.pop();
                proof {
                    assert(stack@.map_values(|s: String| s@) =~= pre.drop_last());
                }
            }
        } else {
            stack.push(parts[k].clone());
            proof {
                assert(stack@.map_values(|s: String| s@) =~= pre.push(pv[k as int]));
            }
        }
        k += 1;
    }
    proof {
        assert(pv.take(pv.len() as int) =~= pv);
    }
    let ghost st = norm_stack(pv);
    let mut out = String::new();
    let is_abs = path.unicode_len() > 0 && path.get_char(0) == '/';
    let ghost prefix: Seq<char> = if is_abs {
        seq!['/']
    } else {
        Seq::<char>::empty()
    };
    if is_abs {
        out.push('/');
    }
    proof {
        assert(st.take(0).len() == 0);
        assert(out@ =~= prefix + join_slash(st.take(0)));
    }
    let mut t: usize = 0;
    while t < stack.len()
        invariant
            t <= stack@.len(),
            st == norm_stack(pv),
            stack@.map_values(|s: String| s@) == st,
            st.len() == stack@.len(),
            out@ == prefix + join_slash(st.take(t as int)),
        decreases stack@.len() - t,
    {
        proof {
            assert(st[t as int] == stack@[t as int]@);
            assert(st.take(t as int + 1).drop_last() =~= st.take(t as int));
            assert(st.take(t as int + 1).last() == st[t as int]);
        }
        let ghost pre = out@;
        if t > 0 {
            out.push('/');
        }
        out.append(stack[t].as_str());
        proof {
            if t == 0 {
                assert(join_slash(st.take(1)) == st[0]);
                assert(out@ =~= prefix + join_slash(st.take(1)));
            } else {
                assert(join_slash(st.take(t as int + 1)) == join_slash(st.take(t as int))
                    + seq!['/'] + st[t as int]);
                assert(out@ =~= prefix + join_slash(st.take(t as int + 1)));
            }
        }
        t += 1;
    }
    proof {
        assert(st.take(st.len() as int) =~= st);
    }
    out
}

} // verus!
