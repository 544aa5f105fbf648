//! The rule engine: folds the ordered filter-rule list over a catalog
//! snapshot into the working set of package ids.
//!
//! The mathematical model is `spec_select`, a left fold over the rule list
//! that carries the working set as a `Set` of ids. The executable `select`
//! is proved to return exactly that set, listed in catalog order so the
//! result is reproducible for a fixed catalog and rule list.

use vstd::prelude::*;
use vstd::pervasive::VecAdditionalExecFns;

use crate::config::{OperationEnum, PackageRuleEnum};
use crate::errors::Error;

verus! {

/// One catalog entry as reported by the remote listing call. Ids are unique
/// within a catalog; display names need not be.
#[derive(Clone, Debug)]
pub struct CatalogEntry {
    pub id: String,
    pub name: String,
    pub mode: Option<String>,
}

/// Mathematical image of a catalog entry.
pub struct EntryView {
    pub id: Seq<char>,
    pub name: Seq<char>,
    pub mode: Option<Seq<char>>,
}

impl View for CatalogEntry {
    type V = EntryView;

    open spec fn view(&self) -> EntryView {
        EntryView {
            id: self.id@,
            name: self.name@,
            mode: match self.mode {
                Option::Some(m) => Option::Some(m@),
                Option::None => Option::None,
            },
        }
    }
}

/// Mathematical image of one filter rule.
pub enum RuleView {
    Regex { adds: bool, pattern: Seq<char> },
    Single { adds: bool, id: Seq<char> },
}

impl View for PackageRuleEnum {
    type V = RuleView;

    open spec fn view(&self) -> RuleView {
        match self {
            PackageRuleEnum::Regex(r) => (RuleView::Regex {
                adds: r.operation == OperationEnum::Include,
                pattern: r.pattern@,
            }),
            PackageRuleEnum::Single(s) => (RuleView::Single {
                adds: s.operation == OperationEnum::Include,
                id: s.id@,
            }),
        }
    }
}

pub open spec fn catalog_view(catalog: Seq<CatalogEntry>) -> Seq<EntryView> {
    catalog.map_values(|e: CatalogEntry| e@)
}

pub open spec fn rules_view(rules: Seq<PackageRuleEnum>) -> Seq<RuleView> {
    rules.map_values(|r: PackageRuleEnum| r@)
}

/// Ids are pairwise distinct, as the remote listing guarantees.
pub open spec fn distinct_ids(catalog: Seq<EntryView>) -> bool {
    forall|i: int, j: int|
        0 <= i < j < catalog.len() ==> catalog[i].id != catalog[j].id
}

/// Some entry of the catalog carries this id.
pub open spec fn has_id(catalog: Seq<EntryView>, id: Seq<char>) -> bool {
    exists|i: int| 0 <= i < catalog.len() && catalog[i].id == id
}

/// Whether `regex::Regex::new` accepts a pattern; a fixed property of the
/// pattern text alone.
pub uninterp spec fn regex_valid(pattern: Seq<char>) -> bool;

/// The pattern text a compiled `regex::Regex` was built from, which
/// `Regex::as_str` documents to be held unchanged.
pub uninterp spec fn regex_pattern(re: regex::Regex) -> Seq<char>;

/// Whether the regular expression `pattern` matches somewhere in `text`; a
/// fixed function of the two texts alone.
pub uninterp spec fn regex_match(pattern: Seq<char>, text: Seq<char>) -> bool;

#[verifier::external_type_specification]
#[verifier::external_body]
pub struct ExRegex(regex::Regex);

/// Relies on regex::Regex::new: it succeeds exactly on syntactically valid
/// patterns, and the compiled value carries the given pattern.
#[verifier::external_body]
fn regex_compile(pattern: &str) -> (r: Option<regex::Regex>)
    ensures
        r is Some <==> regex_valid(pattern@),
        r matches Some(re) ==> regex_pattern(re) == pattern@,
{
    match regex::Regex::new(pattern) {
        Ok(re) => Some(re),
        Err(_) => None,
    }
}

/// Relies on regex::Regex::is_match: a deterministic function of the
/// compiled pattern and the haystack text.
#[verifier::external_body]
fn regex_is_match(re: &regex::Regex, text: &str) -> (r: bool)
    ensures
        r == regex_match(regex_pattern(*re), text@),
{
    re.is_match(text)
}

/// The catalog ids the pattern matches.
pub open spec fn regex_selection(catalog: Seq<EntryView>, pattern: Seq<char>) -> Set<Seq<char>> {
    Set::new(|id: Seq<char>| has_id(catalog, id) && regex_match(pattern, id))
}

/// Ids of the catalog entries whose display name equals `name`, in catalog
/// order; offered as a hint when a single-package rule names an unknown id.
pub open spec fn hint_ids(catalog: Seq<EntryView>, name: Seq<char>) -> Seq<Seq<char>>
    decreases catalog.len(),
{
    if catalog.len() == 0 {
        Seq::empty()
    } else {
        let rest = hint_ids(catalog.drop_last(), name);
        if catalog.last().name == name {
            rest.push(catalog.last().id)
        } else {
            rest
        }
    }
}

/// The pieces joined with a comma between each pair.
pub open spec fn join_comma(pieces: Seq<Seq<char>>) -> Seq<char>
    decreases pieces.len(),
{
    if pieces.len() == 0 {
        Seq::empty()
    } else if pieces.len() == 1 {
        pieces[0]
    } else {
        join_comma(pieces.drop_last()) + seq![','] + pieces.last()
    }
}

/// Result of folding rules over a catalog: either the working set, or the
/// first failure, reported with what the matching error variant carries.
pub enum SelectOutcome {
    Selected(Set<Seq<char>>),
    BadPattern { pattern: Seq<char> },
    MissingId { id: Seq<char>, hints: Seq<Seq<char>> },
}

/// One step of the fold.
pub open spec fn apply_rule(
    catalog: Seq<EntryView>,
    working: Set<Seq<char>>,
    rule: RuleView,
) -> SelectOutcome {
    match rule {
        RuleView::Regex { adds, pattern } => {
            if !regex_valid(pattern) {
                (SelectOutcome::BadPattern { pattern })
            } else if adds {
                SelectOutcome::Selected(working.union(regex_selection(catalog, pattern)))
            } else {
                SelectOutcome::Selected(working.difference(regex_selection(catalog, pattern)))
            }
        }
        RuleView::Single { adds, id } => {
            if !has_id(catalog, id) {
                (SelectOutcome::MissingId { id, hints: hint_ids(catalog, id) })
            } else if adds {
                SelectOutcome::Selected(working.insert(id))
            } else {
                SelectOutcome::Selected(working.remove(id))
            }
        }
    }
}

/// The fold, starting from `working`.
pub open spec fn select_from(
    catalog: Seq<EntryView>,
    working: Set<Seq<char>>,
    rules: Seq<RuleView>,
) -> SelectOutcome
    decreases rules.len(),
{
    if rules.len() == 0 {
        SelectOutcome::Selected(working)
    } else {
        match apply_rule(catalog, working, rules[0]) {
            SelectOutcome::Selected(w) => select_from(catalog, w, rules.drop_first()),
            out => out,
        }
    }
}

/// The whole selection: fold all rules over an initially empty working set.
pub open spec fn spec_select(catalog: Seq<EntryView>, rules: Seq<RuleView>) -> SelectOutcome {
    select_from(catalog, Set::empty(), rules)
}

/// The ids of `working`, listed in catalog order.
pub open spec fn selected_ids(catalog: Seq<EntryView>, working: Set<Seq<char>>) -> Seq<Seq<char>>
    decreases catalog.len(),
{
    if catalog.len() == 0 {
        Seq::empty()
    } else {
        let rest = selected_ids(catalog.drop_last(), working);
        if working.contains(catalog.last().id) {
            rest.push(catalog.last().id)
        } else {
            rest
        }
    }
}

/// The set of ids whose per-index selection flag is on.
pub open spec fn flags_set(catalog: Seq<EntryView>, flags: Seq<bool>) -> Set<Seq<char>> {
    Set::new(
        |id: Seq<char>|
            exists|i: int|
                0 <= i < catalog.len() && i < flags.len() && flags[i] && catalog[i].id == id,
    )
}

/// Applies one regex rule to the per-index selection flags: the flag of
/// every matching id is turned on by an include rule and off by an
/// exclude rule.
fn apply_regex_rule(
    catalog: &Vec<CatalogEntry>,
    selected: &mut Vec<bool>,
    re: &regex::Regex,
    adds: bool,
)
    requires
        old(selected).len() == catalog.len(),
    ensures
        final(selected).len() == catalog.len(),
        flags_set(catalog_view(catalog@), final(selected)@) == (if adds {
            flags_set(catalog_view(catalog@), old(selected)@).union(
                regex_selection(catalog_view(catalog@), regex_pattern(*re)),
            )
        } else {
            flags_set(catalog_view(catalog@), old(selected)@).difference(
                regex_selection(catalog_view(catalog@), regex_pattern(*re)),
            )
        }),
{
    let ghost cv = catalog_view(catalog@);
    let ghost pat = regex_pattern(*re);
    let ghost flags0 = old(selected)@;
    let n = catalog.len();
    let mut i: usize = 0;
    while i < n
        invariant
            n == catalog.len(),
            selected@.len() == catalog@.len(),
            i <= n,
            cv == catalog_view(catalog@),
            cv.len() == catalog@.len(),
            pat == regex_pattern(*re),
            flags0.len() == catalog@.len(),
            forall|k: int| i <= k < n ==> (#[trigger] selected@[k]) == flags0[k],
            forall|k: int|
                0 <= k < i ==> (#[trigger] selected@[k]) == (if adds {
                    flags0[k] || regex_match(pat, cv[k].id)
                } else {
                    flags0[k] && !regex_match(pat, cv[k].id)
                }),
        decreases n - i,
    {
        let m = regex_is_match(re, catalog[i].id.as_str());
        proof {
            assert(cv[i as int] == catalog@[i as int]@);
            assert(cv[i as int].id == catalog@[i as int].id@);
        }
        let ghost pre = selected@;
        let v = if adds {
            selected[i] || m
        } else {
            selected[i] && !m
        };
        selected.set(i, v);
        proof {
            assert(selected@ == pre.update(i as int, v));
            assert(selected@[i as int] == v);
            assert(forall|k: int| 0 <= k < i ==> selected@[k] == pre[k]);
        }
        i += 1;
    }
    proof {
        let sel = regex_selection(cv, pat);
        if adds {
            assert forall|id: Seq<char>| #[trigger] flags_set(cv, selected@).contains(id) implies flags_set(
                cv,
                flags0,
            ).union(sel).contains(id) by {
                let k = choose|k: int|
                    0 <= k < cv.len() && k < selected@.len() && selected@[k] && cv[k].id == id;
                if flags0[k] {
                    assert(flags_set(cv, flags0).contains(id));
                } else {
                    assert(regex_match(pat, id));
                    assert(has_id(cv, id));
                }
            }
            assert forall|id: Seq<char>| #[trigger] flags_set(cv, flags0).union(sel).contains(id) implies flags_set(
                cv,
                selected@,
            ).contains(id) by {
                if flags_set(cv, flags0).contains(id) {
                    let k = choose|k: int|
                        0 <= k < cv.len() && k < flags0.len() && flags0[k] && cv[k].id == id;
                    assert(selected@[k]);
                } else {
                    assert(sel.contains(id));
                    let k = choose|k: int| 0 <= k < cv.len() && cv[k].id == id;
                    assert(selected@[k]);
                }
            }
            assert(flags_set(cv, selected@) =~= flags_set(cv, flags0).union(sel));
        } else {
            assert forall|id: Seq<char>| #[trigger] flags_set(cv, selected@).contains(id) implies flags_set(
                cv,
                flags0,
            ).difference(sel).contains(id) by {
                let k = choose|k: int|
                    0 <= k < cv.len() && k < selected@.len() && selected@[k] && cv[k].id == id;
                assert(flags0[k] && !regex_match(pat, cv[k].id));
                assert(flags_set(cv, flags0).contains(id));
                assert(!sel.contains(id));
            }
            assert forall|id: Seq<char>| #[trigger] flags_set(cv, flags0).difference(sel).contains(
                id,
            ) implies flags_set(cv, selected@).contains(id) by {
                let k = choose|k: int|
                    0 <= k < cv.len() && k < flags0.len() && flags0[k] && cv[k].id == id;
                assert(!regex_match(pat, cv[k].id));
                assert(selected@[k]);
            }
            assert(flags_set(cv, selected@) =~= flags_set(cv, flags0).difference(sel));
        }
    }
}

/// Index of the catalog entry carrying this id, if any.
fn find_id(catalog: &Vec<CatalogEntry>, id: &String) -> (r: Option<usize>)
    ensures
        match r {
            Option::Some(j) => j < catalog@.len() && catalog_view(catalog@)[j as int].id == id@,
            Option::None => !has_id(catalog_view(catalog@), id@),
        },
{
    let ghost cv = catalog_view(catalog@);
    let mut j: usize = 0;
    while j < catalog.len()
        invariant
            j <= catalog@.len(),
            cv == catalog_view(catalog@),
            cv.len() == catalog@.len(),
            forall|k: int| 0 <= k < j ==> (#[trigger] cv[k].id) != id@,
        decreases catalog@.len() - j,
    {
        proof {
            assert(cv[j as int] == catalog@[j as int]@);
        }
        if catalog[j].id == *id {
            return Some(j);
        }
        j += 1;
    }
    proof {
        if has_id(cv, id@) {
            let k = choose|k: int| 0 <= k < cv.len() && cv[k].id == id@;
            assert(false);
        }
    }
    None
}

/// The comma-joined ids of the entries whose display name equals `name`,
/// in catalog order, or nothing when no entry is so named.
fn build_name_hint(catalog: &Vec<CatalogEntry>, name: &String) -> (r: Option<String>)
    ensures
        ({
            let hints = hint_ids(catalog_view(catalog@), name@);
            match r {
                Option::Some(h) => hints.len() > 0 && h@ == join_comma(hints),
                Option::None => hints.len() == 0,
            }
        }),
{
    let ghost cv = catalog_view(catalog@);
    let mut text: String = String::new();
    let mut any: bool = false;
    let mut j: usize = 0;
    while j < catalog.len()
        invariant
            j <= catalog@.len(),
            cv == catalog_view(catalog@),
            cv.len() == catalog@.len(),
            any == (hint_ids(cv.take(j as int), name@).len() > 0),
            text@ == join_comma(hint_ids(cv.take(j as int), name@)),
        decreases catalog@.len() - j,
    {
        proof {
            assert(cv[j as int] == catalog@[j as int]@);
            assert(cv.take(j as int + 1).drop_last() =~= cv.take(j as int));
            assert(cv.take(j as int + 1).last() == cv[j as int]);
        }
        let ghost old_hints = hint_ids(cv.take(j as int), name@);
        if catalog[j].name == *name {
            if any {
                text.append(",");
            }
            text.append(catalog[j].id.as_str());
            any = true;
            proof {
                let hints = hint_ids(cv.take(j as int + 1), name@);
                assert(hints == old_hints.push(cv[j as int].id));
                assert(hints.drop_last() =~= old_hints);
                reveal_strlit(",");
                assert(","@ =~= seq![',']);
                if old_hints.len() == 0 {
                    assert(text@ =~= join_comma(hints));
                } else {
                    assert(join_comma(hints) == join_comma(old_hints) + seq![','] + cv[j as int].id);
                    assert(text@ =~= join_comma(hints));
                }
            }
        } else {
            proof {
                assert(hint_ids(cv.take(j as int + 1), name@) == old_hints);
            }
        }
        j += 1;
    }
    proof {
        assert(cv.take(catalog@.len() as int) =~= cv);
    }
    if any {
        Some(text)
    } else {
        None
    }
}

/// Folds the rules, in order, over the catalog: the returned ids are exactly
/// the working set of `spec_select`, listed in catalog order; the first
/// failing rule is reported as the matching error, with the name hint for an
/// unknown id.
pub fn select(catalog: &Vec<CatalogEntry>, rules: &Vec<PackageRuleEnum>) -> (r: Result<
    Vec<String>,
    Error,
>)
    requires
        distinct_ids(catalog_view(catalog@)),
    ensures
        ({
            let out = spec_select(catalog_view(catalog@), rules_view(rules@));
            match r {
                Ok(ids) => out matches SelectOutcome::Selected(w) && ids@.map_values(
                    |s: String| s@,
                ) == selected_ids(catalog_view(catalog@), w),
                Err(e) => match e {
                    Error::Pattern(p) => out matches SelectOutcome::BadPattern { pattern }
                        && p@ == pattern,
                    Error::UnknownPackage { id, name_hint } => out matches SelectOutcome::MissingId {
                        id: mid,
                        hints,
                    } && id@ == mid && (match name_hint {
                        Option::Some(h) => hints.len() > 0 && h@ == join_comma(hints),
                        Option::None => hints.len() == 0,
                    }),
                    _ => false,
                },
            }
        }),
{
    let ghost cv = catalog_view(catalog@);
    let ghost rv = rules_view(rules@);
    let mut selected: Vec<bool> = Vec::new();
    let mut k: usize = 0;
    while k < catalog.len()
        invariant
            k <= catalog@.len(),
            selected@.len() == k as nat,
            forall|t: int| 0 <= t < k ==> !(#[trigger] selected@[t]),
        decreases catalog@.len() - k,
    {
        selected.push(false);
        k += 1;
    }
    proof {
        assert forall|id: Seq<char>| !(#[trigger] flags_set(cv, selected@).contains(id)) by {
            if flags_set(cv, selected@).contains(id) {
                let t = choose|t: int|
                    0 <= t < cv.len() && t < selected@.len() && selected@[t] && cv[t].id == id;
                assert(!selected@[t]);
            }
        }
        assert(flags_set(cv, selected@) =~= Set::<Seq<char>>::empty());
        assert(rv.skip(0) =~= rv);
    }
    let mut ri: usize = 0;
    while ri < rules.len()
        invariant
            ri <= rules@.len(),
            selected@.len() == catalog@.len(),
            cv == catalog_view(catalog@),
            rv == rules_view(rules@),
            cv.len() == catalog@.len(),
            rv.len() == rules@.len(),
            distinct_ids(cv),
            select_from(cv, flags_set(cv, selected@), rv.skip(ri as int)) == spec_select(cv, rv),
        decreases rules@.len() - ri,
    {
        let ghost w = flags_set(cv, selected@);
        proof {
            assert(rv[ri as int] == rules@[ri as int]@);
            assert(rv.skip(ri as int)[0] == rv[ri as int]);
            assert(rv.skip(ri as int).drop_first() =~= rv.skip(ri as int + 1));
        }
        match &rules[ri] {
            PackageRuleEnum::Regex(rrule) => {
                let adds = rrule.operation == OperationEnum::Include;
                match regex_compile(rrule.pattern.as_str()) {
                    None => {
                        proof {
                            assert(apply_rule(cv, w, rv[ri as int]) == (SelectOutcome::BadPattern {
                                pattern: rrule.pattern@,
                            }));
                        }
                        return Err(Error::Pattern(rrule.pattern.clone()));
                    }
                    Some(re) => {
                        apply_regex_rule(catalog, &mut selected, &re, adds);
                        proof {
                            let w2 = flags_set(cv, selected@);
                            assert(apply_rule(cv, w, rv[ri as int]) == SelectOutcome::Selected(w2));
                        }
                    }
                }
            }
            PackageRuleEnum::Single(srule) => {
                let adds = srule.operation == OperationEnum::Include;
                match find_id(catalog, &srule.id) {
                    None => {
                        let hint = build_name_hint(catalog, &srule.id);
                        proof {
                            assert(apply_rule(cv, w, rv[ri as int]) == (SelectOutcome::MissingId {
                                id: srule.id@,
                                hints: hint_ids(cv, srule.id@),
                            }));
                        }
                        return Err(
                            Error::UnknownPackage { id: srule.id.clone(), name_hint: hint },
                        );
                    }
                    Some(j) => {
                        let ghost pre = selected@;
                        selected.set(j, adds);
                        proof {
                            let id = srule.id@;
                            let w2 = flags_set(cv, selected@);
                            assert(selected@ == pre.update(j as int, adds));
                            assert(has_id(cv, id));
                            if adds {
                                assert forall|x: Seq<char>| #[trigger] w2.contains(x) implies w.insert(
                                    id,
                                ).contains(x) by {
                                    let t = choose|t: int|
                                        0 <= t < cv.len() && t < selected@.len() && selected@[t]
                                            && cv[t].id == x;
                                    if t == j {
                                        assert(x == id);
                                    } else {
                                        assert(pre[t]);
                                        assert(w.contains(x));
                                    }
                                }
                                assert forall|x: Seq<char>| #[trigger] w.insert(id).contains(x) implies w2.contains(
                                    x,
                                ) by {
                                    if x == id {
                                        assert(selected@[j as int] && cv[j as int].id == x);
                                    } else {
                                        let t = choose|t: int|
                                            0 <= t < cv.len() && t < pre.len() && pre[t] && cv[t].id
                                                == x;
                                        assert(t != j);
                                        assert(selected@[t]);
                                    }
                                }
                                assert(w2 =~= w.insert(id));
                                assert(apply_rule(cv, w, rv[ri as int]) == SelectOutcome::Selected(
                                    w2,
                                ));
                            } else {
                                assert forall|x: Seq<char>| #[trigger] w2.contains(x) implies w.remove(
                                    id,
                                ).contains(x) by {
                                    let t = choose|t: int|
                                        0 <= t < cv.len() && t < selected@.len() && selected@[t]
                                            && cv[t].id == x;
                                    assert(t != j);
                                    assert(pre[t]);
                                    assert(w.contains(x));
                                    if x == id {
                                        assert(cv[t].id == cv[j as int].id);
                                        assert(false);
                                    }
                                }
                                assert forall|x: Seq<char>| #[trigger] w.remove(id).contains(x) implies w2.contains(
                                    x,
                                ) by {
                                    let t = choose|t: int|
                                        0 <= t < cv.len() && t < pre.len() && pre[t] && cv[t].id
                                            == x;
                                    assert(t != j);
                                    assert(selected@[t]);
                                }
                                assert(w2 =~= w.remove(id));
                                assert(apply_rule(cv, w, rv[ri as int]) == SelectOutcome::Selected(
                                    w2,
                                ));
                            }
                        }
                    }
                }
            }
        }
        ri += 1;
    }
    proof {
        assert(rv.skip(rules@.len() as int) =~= Seq::<RuleView>::empty());
    }
    let ghost w = flags_set(cv, selected@);
    let mut out: Vec<String> = Vec::new();
    let mut oi: usize = 0;
    while oi < catalog.len()
        invariant
            oi <= catalog@.len(),
            selected@.len() == catalog@.len(),
            cv == catalog_view(catalog@),
            cv.len() == catalog@.len(),
            distinct_ids(cv),
            w == flags_set(cv, selected@),
            out@.map_values(|s: String| s@) == selected_ids(cv.take(oi as int), w),
        decreases catalog@.len() - oi,
    {
        proof {
            assert(cv.take(oi as int + 1).drop_last() =~= cv.take(oi as int));
            assert(cv.take(oi as int + 1).last() == cv[oi as int]);
            assert(cv[oi as int] == catalog@[oi as int]@);
        }
        let ghost old_map = out@.map_values(|s: String| s@);
        if selected[oi] {
            proof {
                assert(w.contains(cv[oi as int].id));
            }
            out.push(catalog[oi].id.clone());
            proof {
                assert(out@.map_values(|s: String| s@) =~= old_map.push(catalog@[oi as int].id@));
            }
        } else {
            proof {
                if w.contains(cv[oi as int].id) {
                    let t = choose|t: int|
                        0 <= t < cv.len() && t < selected@.len() && selected@[t]
                            && cv[t].id == cv[oi as int].id;
                    assert(t != oi);
                    assert(false);
                }
            }
        }
        oi += 1;
    }
    proof {
        assert(cv.take(catalog@.len() as int) =~= cv);
    }
    Ok(out)
}

/// Some catalog entry carries this display name together with this id.
pub open spec fn named_id(catalog: Seq<EntryView>, name: Seq<char>, id: Seq<char>) -> bool {
    exists|i: int| 0 <= i < catalog.len() && catalog[i].name == name && (#[trigger] catalog[i]).id == id
}

/// Two selection outcomes that agree up to catalog order: the same working
/// set, the same failing pattern, or the same unknown id with the same set
/// of hint ids.
pub open spec fn outcome_equiv(o1: SelectOutcome, o2: SelectOutcome) -> bool {
    match (o1, o2) {
        (SelectOutcome::Selected(w1), SelectOutcome::Selected(w2)) => w1 == w2,
        (
            SelectOutcome::BadPattern { pattern: p1 },
            SelectOutcome::BadPattern { pattern: p2 },
        ) => p1 == p2,
        (
            SelectOutcome::MissingId { id: i1, hints: h1 },
            SelectOutcome::MissingId { id: i2, hints: h2 },
        ) => i1 == i2 && h1.to_set() == h2.to_set(),
        _ => false,
    }
}

proof fn lemma_has_id_equiv(c1: Seq<EntryView>, c2: Seq<EntryView>, id: Seq<char>)
    requires
        c1.to_set() == c2.to_set(),
    ensures
        has_id(c1, id) == has_id(c2, id),
{
    if has_id(c1, id) {
        let i = choose|i: int| 0 <= i < c1.len() && c1[i].id == id;
        assert(c1.contains(c1[i]));
        assert(c1.to_set().contains(c1[i]));
        assert(c2.to_set().contains(c1[i]));
        assert(c2.contains(c1[i]));
        let j = choose|j: int| 0 <= j < c2.len() && c2[j] == c1[i];
        assert(c2[j].id == id);
    }
    if has_id(c2, id) {
        let i = choose|i: int| 0 <= i < c2.len() && c2[i].id == id;
        assert(c2.contains(c2[i]));
        assert(c2.to_set().contains(c2[i]));
        assert(c1.to_set().contains(c2[i]));
        assert(c1.contains(c2[i]));
        let j = choose|j: int| 0 <= j < c1.len() && c1[j] == c2[i];
        assert(c1[j].id == id);
    }
}

proof fn lemma_named_id_equiv(c1: Seq<EntryView>, c2: Seq<EntryView>, name: Seq<char>, id: Seq<char>)
    requires
        c1.to_set() == c2.to_set(),
    ensures
        named_id(c1, name, id) == named_id(c2, name, id),
{
    if named_id(c1, name, id) {
        let i = choose|i: int| 0 <= i < c1.len() && c1[i].name == name && (#[trigger] c1[i]).id == id;
        assert(c1.contains(c1[i]));
        assert(c1.to_set().contains(c1[i]));
        assert(c2.to_set().contains(c1[i]));
        assert(c2.contains(c1[i]));
        let j = choose|j: int| 0 <= j < c2.len() && c2[j] == c1[i];
        assert(c2[j].name == name && c2[j].id == id);
    }
    if named_id(c2, name, id) {
        let i = choose|i: int| 0 <= i < c2.len() && c2[i].name == name && (#[trigger] c2[i]).id == id;
        assert(c2.contains(c2[i]));
        assert(c2.to_set().contains(c2[i]));
        assert(c1.to_set().contains(c2[i]));
        assert(c1.contains(c2[i]));
        let j = choose|j: int| 0 <= j < c1.len() && c1[j] == c2[i];
        assert(c1[j].name == name && c1[j].id == id);
    }
}

/// The hint list holds an id exactly when some entry carries the looked-up
/// string as its display name together with that id.
proof fn lemma_hint_ids_contains(catalog: Seq<EntryView>, name: Seq<char>, x: Seq<char>)
    ensures
        hint_ids(catalog, name).contains(x) == named_id(catalog, name, x),
    decreases catalog.len(),
{
    broadcast use vstd::seq_lib::lemma_seq_contains_after_push;

    if catalog.len() == 0 {
        if named_id(catalog, name, x) {
            let i = choose|i: int|
                0 <= i < catalog.len() && catalog[i].name == name && (#[trigger] catalog[i]).id
                    == x;
            assert(false);
        }
    } else {
        let rest = catalog.drop_last();
        let last = catalog.last();
        lemma_hint_ids_contains(rest, name, x);
        if named_id(rest, name, x) {
            let i = choose|i: int|
                0 <= i < rest.len() && rest[i].name == name && (#[trigger] rest[i]).id == x;
            assert(catalog[i].name == name && catalog[i].id == x);
            assert(named_id(catalog, name, x));
        }
        if last.name == name {
            assert(hint_ids(catalog, name) == hint_ids(rest, name).push(last.id));
            if hint_ids(catalog, name).contains(x) {
                if x == last.id {
                    assert(catalog[catalog.len() - 1].name == name && catalog[catalog.len()
                        - 1].id == x);
                    assert(named_id(catalog, name, x));
                } else {
                    assert(hint_ids(rest, name).contains(x));
                }
            }
            if named_id(catalog, name, x) {
                let i = choose|i: int|
                    0 <= i < catalog.len() && catalog[i].name == name && (#[trigger] catalog[i]).id
                        == x;
                if i < catalog.len() - 1 {
                    assert(rest[i].name == name && rest[i].id == x);
                    assert(named_id(rest, name, x));
                } else {
                    assert(x == last.id);
                }
            }
        } else {
            assert(hint_ids(catalog, name) == hint_ids(rest, name));
            if named_id(catalog, name, x) {
                let i = choose|i: int|
                    0 <= i < catalog.len() && catalog[i].name == name && (#[trigger] catalog[i]).id
                        == x;
                assert(i < catalog.len() - 1);
                assert(rest[i].name == name && rest[i].id == x);
                assert(named_id(rest, name, x));
            }
        }
    }
}

proof fn lemma_apply_rule_equiv(
    c1: Seq<EntryView>,
    c2: Seq<EntryView>,
    working: Set<Seq<char>>,
    rule: RuleView,
)
    requires
        c1.to_set() == c2.to_set(),
    ensures
        outcome_equiv(apply_rule(c1, working, rule), apply_rule(c2, working, rule)),
{
    match rule {
        RuleView::Regex { adds, pattern } => {
            if regex_valid(pattern) {
                assert forall|id: Seq<char>|
                    #[trigger] regex_selection(c1, pattern).contains(id) == regex_selection(
                        c2,
                        pattern,
                    ).contains(id) by {
                    lemma_has_id_equiv(c1, c2, id);
                }
                assert(regex_selection(c1, pattern) =~= regex_selection(c2, pattern));
            }
        }
        RuleView::Single { adds, id } => {
            lemma_has_id_equiv(c1, c2, id);
            if !has_id(c1, id) {
                assert forall|x: Seq<char>|
                    #[trigger] hint_ids(c1, id).contains(x) == hint_ids(c2, id).contains(x) by {
                    lemma_hint_ids_contains(c1, id, x);
                    lemma_hint_ids_contains(c2, id, x);
                    lemma_named_id_equiv(c1, c2, id, x);
                }
                assert(hint_ids(c1, id).to_set() =~= hint_ids(c2, id).to_set());
            }
        }
    }
}

proof fn lemma_select_from_equiv(
    c1: Seq<EntryView>,
    c2: Seq<EntryView>,
    working: Set<Seq<char>>,
    rules: Seq<RuleView>,
)
    requires
        c1.to_set() == c2.to_set(),
    ensures
        outcome_equiv(select_from(c1, working, rules), select_from(c2, working, rules)),
    decreases rules.len(),
{
    if rules.len() > 0 {
        lemma_apply_rule_equiv(c1, c2, working, rules[0]);
        match apply_rule(c1, working, rules[0]) {
            SelectOutcome::Selected(w2) => {
                lemma_select_from_equiv(c1, c2, w2, rules.drop_first());
            }
            _ => {}
        }
    }
}

/// Law: selection does not depend on the order in which the catalog lists
/// its entries. Two catalogs holding the same entries drive the fold to the
/// same working set, the same failing pattern, or the same unknown id with
/// the same set of hint ids.
pub proof fn lemma_select_order_independent(
    c1: Seq<EntryView>,
    c2: Seq<EntryView>,
    rules: Seq<RuleView>,
)
    requires
        c1.to_set() == c2.to_set(),
    ensures
        outcome_equiv(spec_select(c1, rules), spec_select(c2, rules)),
{
    lemma_select_from_equiv(c1, c2, Set::empty(), rules);
}

/// Law: a pattern include immediately followed by an exclude of the same
/// pattern selects nothing, on any catalog.
pub proof fn lemma_same_pattern_cancels(catalog: Seq<EntryView>, pattern: Seq<char>)
    requires
        regex_valid(pattern),
    ensures
        spec_select(
            catalog,
            seq![
                RuleView::Regex { adds: true, pattern },
                RuleView::Regex { adds: false, pattern },
            ],
        ) == SelectOutcome::Selected(Set::<Seq<char>>::empty()),
{
    reveal_with_fuel(select_from, 4);
    let r0 = RuleView::Regex { adds: true, pattern };
    let r1 = RuleView::Regex { adds: false, pattern };
    let rules = seq![r0, r1];
    let sel = regex_selection(catalog, pattern);
    let w1 = Set::empty().union(sel);
    assert(rules[0] == r0);
    assert(apply_rule(catalog, Set::empty(), r0) == SelectOutcome::Selected(w1));
    let tail = rules.drop_first();
    assert(tail =~= seq![r1]);
    assert(tail[0] == r1);
    assert(apply_rule(catalog, w1, r1) == SelectOutcome::Selected(w1.difference(sel)));
    assert(tail.drop_first() =~= Seq::<RuleView>::empty());
    assert(w1.difference(sel) =~= Set::<Seq<char>>::empty());
    assert(select_from(catalog, w1.difference(sel), tail.drop_first())
        == SelectOutcome::Selected(w1.difference(sel)));
}

} // verus!
