//! The planning half of the artifact materializer: given one artifact's
//! downloaded bytes it computes exactly which files to write — the raw
//! archive file when extraction is disabled, or one file per archive entry,
//! each under a sanitized path and comment-stripped when that applies. The
//! unverified shell only joins the returned components and writes the
//! returned bytes.

use vstd::prelude::*;

use vstd::utf8::valid_utf8;

use crate::archive::{zip_contents, zip_entry, zip_entry_seq, zip_len, zip_open, zip_wf};
use crate::config::{Config, PropCommentRemoval, ZipExtraction};
use crate::errors::Error;
use crate::paths::{safe_segment, sanitize_entry_path, spec_sanitize};
use crate::paths::lemma_sanitize_segments_safe;
use crate::strip::{spec_strip, strip_prop_comments};

verus! {

/// One file the materializer wants on disk: path components relative to the
/// output directory, and the exact content.
#[derive(Debug)]
pub struct PlannedWrite {
    pub path: Vec<String>,
    pub contents: Vec<u8>,
}

/// Mathematical image of one planned file.
pub struct PlannedWriteView {
    pub path: Seq<Seq<char>>,
    pub contents: Seq<u8>,
}

impl View for PlannedWrite {
    type V = PlannedWriteView;

    open spec fn view(&self) -> PlannedWriteView {
        PlannedWriteView { path: self.path@.map_values(|s: String| s@), contents: self.contents@ }
    }
}

/// The file-name suffix that marks a parameters file.
pub open spec fn prop_suffix() -> Seq<char> {
    seq!['p', 'a', 'r', 'a', 'm', 'e', 't', 'e', 'r', 's', '.', 'p', 'r', 'o', 'p']
}

/// Whether an entry name ends in the parameters-file suffix.
pub open spec fn has_prop_suffix(name: Seq<char>) -> bool {
    name.len() >= prop_suffix().len() && name.subrange(
        name.len() - prop_suffix().len(),
        name.len() as int,
    ) == prop_suffix()
}

/// Whether one archive entry can be materialized: its path sanitizes, and
/// when comment stripping applies its content decodes as text.
pub open spec fn entry_ok(name: Seq<char>, content: Seq<u8>, strip: bool) -> bool {
    &&& spec_sanitize(name) is Some
    &&& (strip && has_prop_suffix(name) ==> valid_utf8(content))
}

/// The file one archive entry yields.
pub open spec fn entry_write(
    package_id: Seq<char>,
    artifact_id: Seq<char>,
    name: Seq<char>,
    content: Seq<u8>,
    strip: bool,
) -> PlannedWriteView
    recommends
        entry_ok(name, content, strip),
{
    PlannedWriteView {
        path: seq![package_id, artifact_id] + spec_sanitize(name).unwrap(),
        contents: if strip && has_prop_suffix(name) {
            spec_strip(content)
        } else {
            content
        },
    }
}

/// The files an extracted artifact yields: one per entry, in entry order,
/// or nothing when any entry must be rejected.
pub open spec fn spec_extract_plan(
    package_id: Seq<char>,
    artifact_id: Seq<char>,
    entries: Seq<(Seq<char>, Seq<u8>)>,
    strip: bool,
) -> Option<Seq<PlannedWriteView>>
    decreases entries.len(),
{
    if entries.len() == 0 {
        Option::Some(Seq::empty())
    } else {
        match spec_extract_plan(package_id, artifact_id, entries.drop_last(), strip) {
            Option::None => Option::None,
            Option::Some(rest) => {
                let e = entries.last();
                if entry_ok(e.0, e.1, strip) {
                    Option::Some(rest.push(entry_write(package_id, artifact_id, e.0, e.1, strip)))
                } else {
                    Option::None
                }
            }
        }
    }
}

/// The raw archive file name of an artifact.
pub open spec fn zip_file_name(artifact_id: Seq<char>) -> Seq<char> {
    artifact_id + seq!['.', 'z', 'i', 'p']
}

/// The single file a non-extracted artifact yields: the bytes, verbatim.
pub open spec fn spec_raw_plan(
    package_id: Seq<char>,
    artifact_id: Seq<char>,
    bytes: Seq<u8>,
) -> Seq<PlannedWriteView> {
    seq![
        PlannedWriteView { path: seq![package_id, zip_file_name(artifact_id)], contents: bytes },
    ]
}

/// Whether every entry of an archive's table can be read.
pub open spec fn all_readable(table: Seq<(Seq<char>, Option<Seq<u8>>)>) -> bool {
    forall|i: int| 0 <= i < table.len() ==> (#[trigger] table[i]).1 is Some
}

/// The fully read entries of a table all of whose entries can be read.
pub open spec fn read_entries(table: Seq<(Seq<char>, Option<Seq<u8>>)>) -> Seq<
    (Seq<char>, Seq<u8>),
> {
    table.map_values(|e: (Seq<char>, Option<Seq<u8>>)| (e.0, e.1.unwrap()))
}

/// A planned path that cannot leave the artifact's directory: it starts
/// with the package and artifact components and every further component is
/// safe.
pub open spec fn plan_path_under(
    package_id: Seq<char>,
    artifact_id: Seq<char>,
    path: Seq<Seq<char>>,
) -> bool {
    &&& path.len() >= 2
    &&& path[0] == package_id
    &&& path[1] == artifact_id
    &&& forall|k: int| 2 <= k < path.len() ==> safe_segment(#[trigger] path[k])
}

/// Law: every file of an extraction plan lies strictly under the package
/// and artifact directory.
pub proof fn lemma_extract_plan_paths_safe(
    package_id: Seq<char>,
    artifact_id: Seq<char>,
    entries: Seq<(Seq<char>, Seq<u8>)>,
    strip: bool,
)
    ensures
        spec_extract_plan(package_id, artifact_id, entries, strip) matches Option::Some(p)
            ==> forall|i: int|
            0 <= i < p.len() ==> plan_path_under(package_id, artifact_id, (#[trigger] p[i]).path),
    decreases entries.len(),
{
    if entries.len() > 0 {
        lemma_extract_plan_paths_safe(package_id, artifact_id, entries.drop_last(), strip);
        let prev = spec_extract_plan(package_id, artifact_id, entries.drop_last(), strip);
        let cur = spec_extract_plan(package_id, artifact_id, entries, strip);
        if cur is Some {
            let p = cur.unwrap();
            let rest = prev.unwrap();
            let e = entries.last();
            lemma_sanitize_segments_safe(e.0);
            assert forall|i: int|
                0 <= i < p.len() implies plan_path_under(
                package_id,
                artifact_id,
                (#[trigger] p[i]).path,
            ) by {
                if i < rest.len() {
                    assert(p[i] == rest[i]);
                } else {
                    assert(p[i] == entry_write(package_id, artifact_id, e.0, e.1, strip));
                    let segs = spec_sanitize(e.0).unwrap();
                    let path = p[i].path;
                    assert forall|k: int| 2 <= k < path.len() implies safe_segment(
                        #[trigger] path[k],
                    ) by {
                        assert(path[k] == segs[k - 2]);
                    }
                }
            }
        }
    }
}

/// Law: a plan with extraction disabled holds exactly one file, the
/// downloaded bytes verbatim at the archive path — so materializing the
/// same bytes twice writes byte-identical files.
pub proof fn lemma_raw_plan_exact(package_id: Seq<char>, artifact_id: Seq<char>, bytes: Seq<u8>)
    ensures
        spec_raw_plan(package_id, artifact_id, bytes).len() == 1,
        spec_raw_plan(package_id, artifact_id, bytes)[0].contents == bytes,
        spec_raw_plan(package_id, artifact_id, bytes)[0].path == seq![
            package_id,
            zip_file_name(artifact_id),
        ],
{
}

proof fn lemma_extract_plan_bad(
    package_id: Seq<char>,
    artifact_id: Seq<char>,
    entries: Seq<(Seq<char>, Seq<u8>)>,
    strip: bool,
    i: int,
)
    requires
        0 <= i < entries.len(),
        !entry_ok(entries[i].0, entries[i].1, strip),
    ensures
        spec_extract_plan(package_id, artifact_id, entries, strip) is None,
    decreases entries.len(),
{
    if i < entries.len() - 1 {
        lemma_extract_plan_bad(package_id, artifact_id, entries.drop_last(), strip, i);
        assert(entries.drop_last()[i] == entries[i]);
    }
}

/// Relies on str::from_utf8: it accepts exactly the byte sequences that are
/// valid UTF-8 as `vstd::utf8::valid_utf8` defines it.
#[verifier::external_body]
fn utf8_ok(bytes: &Vec<u8>) -> (r: bool)
    ensures
        r == valid_utf8(bytes@),
{
    core::str::from_utf8(bytes.as_slice()).is_ok()
}

/// Whether the entry name ends in the parameters-file suffix.
fn is_prop_entry(name: &str) -> (r: bool)
    ensures
        r == has_prop_suffix(name@),
{
    let suffix: Vec<char> = vec![
        'p',
        'a',
        'r',
        'a',
        'm',
        'e',
        't',
        'e',
        'r',
        's',
        '.',
        'p',
        'r',
        'o',
        'p',
    ];
    proof {
        assert(suffix@ =~= prop_suffix());
    }
    let n = name.unicode_len();
    if n < 15 {
        return false;
    }
    let mut k: usize = 0;
    while k < 15
        invariant
            k <= 15,
            n == name@.len(),
            n >= 15,
            suffix@ == prop_suffix(),
            forall|t: int| 0 <= t < k ==> name@[n - 15 + t] == prop_suffix()[t],
        decreases 15 - k,
    {
        let c = name.get_char(n - 15 + k);
        if c != suffix[k] {
            proof {
                if has_prop_suffix(name@) {
                    assert(name@.subrange(n - 15, n as int)[k as int] == name@[n - 15 + k]);
                }
            }
            return false;
        }
        k += 1;
    }
    proof {
        assert(name@.subrange(n - 15, n as int) =~= prop_suffix());
    }
    true
}

/// Turns the entries of one artifact's archive into the files to write.
/// Succeeds exactly when every entry sanitizes and every parameters file to
/// be stripped decodes as text; the plan is then pinned entry by entry.
pub fn plan_entries(
    package_id: &str,
    artifact_id: &str,
    entries: Vec<(String, Vec<u8>)>,
    strip: bool,
) -> (r: Result<Vec<PlannedWrite>, Error>)
    ensures
        ({
            let plan = spec_extract_plan(
                package_id@,
                artifact_id@,
                entries@.map_values(|e: (String, Vec<u8>)| (e.0@, e.1@)),
                strip,
            );
            match r {
                Ok(ws) => plan matches Option::Some(p) && ws@.map_values(|w: PlannedWrite| w@)
                    == p,
                Err(e) => plan is None && e is Archive,
            }
        }),
{
    let ghost ev = entries@.map_values(|e: (String, Vec<u8>)| (e.0@, e.1@));
    let mut rem = entries;
    let mut plan: Vec<PlannedWrite> = Vec::new();
    proof {
        assert(ev.take(0) =~= Seq::<(Seq<char>, Seq<u8>)>::empty());
        assert(plan@.map_values(|w: PlannedWrite| w@) =~= Seq::<PlannedWriteView>::empty());
    }
    while rem.len() > 0
        invariant
            ev == entries@.map_values(|e: (String, Vec<u8>)| (e.0@, e.1@)),
            rem@.len() <= ev.len(),
            forall|j: int|
                0 <= j < rem@.len() ==> ((#[trigger] rem@[j]).0@, rem@[j].1@) == ev[ev.len()
                    - rem@.len() + j],
            spec_extract_plan(
                package_id@,
                artifact_id@,
                ev.take(ev.len() - rem@.len()),
                strip,
            ) == Option::Some(plan@.map_values(|w: PlannedWrite| w@)),
        decreases rem@.len(),
    {
        let ghost k = ev.len() - rem@.len();
        let ghost old_rem = rem@;
        let e = rem.remove(0);
        let name = e.0;
        let content = e.1;
        proof {
            assert(e == old_rem[0]);
            assert(ev[k as int] == (name@, content@));
            assert forall|j: int| 0 <= j < rem@.len() implies (#[trigger] rem@[j])
                == old_rem[j + 1] by {
                assert(old_rem.subrange(1, old_rem.len() as int)[j] == old_rem[j + 1]);
            }
            assert(ev.take(k as int + 1).drop_last() =~= ev.take(k as int));
            assert(ev.take(k as int + 1).last() == ev[k as int]);
        }
        let segs = match sanitize_entry_path(name.as_str()) {
            None => {
                proof {
                    lemma_extract_plan_bad(package_id@, artifact_id@, ev, strip, k as int);
                }
                return Err(Error::Archive(name));
            }
            Some(segs) => segs,
        };
        let strip_this = strip && is_prop_entry(name.as_str());
        let contents: Vec<u8> = if strip_this {
            if !utf8_ok(&content) {
                proof {
                    lemma_extract_plan_bad(package_id@, artifact_id@, ev, strip, k as int);
                }
                return Err(Error::Archive(name));
            }
            strip_prop_comments(&content)
        } else {
            content
        };
        let mut path: Vec<String> = Vec::new();
        path.push(package_id.to_owned());
        path.push(artifact_id.to_owned());
        let mut segs = segs;
        let ghost sv = spec_sanitize(name@).unwrap();
        proof {
            assert(path@.map_values(|s: String| s@) =~= seq![package_id@, artifact_id@] + sv.take(
                0,
            ));
            assert forall|j: int| 0 <= j < segs@.len() implies (#[trigger] segs@[j])@ == sv[j] by {
                assert(segs@.map_values(|s: String| s@)[j] == segs@[j]@);
            }
        }
        while segs.len() > 0
            invariant
                segs@.len() <= sv.len(),
                forall|j: int|
                    0 <= j < segs@.len() ==> (#[trigger] segs@[j])@ == sv[sv.len() - segs@.len()
                        + j],
                path@.map_values(|s: String| s@) == seq![package_id@, artifact_id@] + sv.take(
                    sv.len() - segs@.len(),
                ),
            decreases segs@.len(),
        {
            let ghost t = sv.len() - segs@.len();
            let ghost pre = path@.map_values(|s: String| s@);
            let ghost old_segs = segs@;
            let s = segs.remove(0);
            proof {
                assert(s == old_segs[0]);
                assert(sv[t as int] == s@);
                assert forall|j: int| 0 <= j < segs@.len() implies (#[trigger] segs@[j])
                    == old_segs[j + 1] by {
                    assert(old_segs.subrange(1, old_segs.len() as int)[j] == old_segs[j + 1]);
                }
            }
            path.push(s);
            proof {
                assert(path@.map_values(|s: String| s@) =~= pre.push(sv[t as int]));
                assert(pre.push(sv[t as int]) =~= seq![package_id@, artifact_id@] + sv.take(
                    t as int + 1,
                ));
            }
        }
        proof {
            assert(sv.take(sv.len() as int) =~= sv);
        }
        let ghost pre_plan = plan@.map_values(|w: PlannedWrite| w@);
        let w = PlannedWrite { path, contents };
        proof {
            assert(w@.path =~= seq![package_id@, artifact_id@] + sv);
            assert(entry_ok(name@, content@, strip));
            assert(w@.contents == (if strip && has_prop_suffix(name@) {
                spec_strip(content@)
            } else {
                content@
            }));
            assert(w@ == entry_write(package_id@, artifact_id@, name@, content@, strip));
        }
        plan.push(w);
        proof {
            assert(plan@.map_values(|w: PlannedWrite| w@) =~= pre_plan.push(
                entry_write(package_id@, artifact_id@, name@, content@, strip),
            ));
        }
    }
    proof {
        assert(ev.take(ev.len() as int) =~= ev);
    }
    Ok(plan)
}

/// Plans the materialization of one artifact from its downloaded bytes.
/// With extraction disabled the plan is always the single raw archive file,
/// verbatim. With extraction enabled it succeeds exactly when the zip
/// reader accepts the bytes, every entry can be read, and every entry is
/// accepted by the extraction plan; the plan is then pinned entry by
/// entry, and anything else is an archive error.
pub fn write_artifact_plan(
    package_id: &str,
    artifact_id: &str,
    config: &Config,
    bytes: Vec<u8>,
) -> (r: Result<Vec<PlannedWrite>, Error>)
    ensures
        config.packages.zip_extraction == ZipExtraction::Disabled ==> (r matches Ok(plan)
            && plan@.map_values(|w: PlannedWrite| w@) == spec_raw_plan(
            package_id@,
            artifact_id@,
            bytes@,
        )),
        config.packages.zip_extraction == ZipExtraction::Enabled ==> {
            let strip = config.packages.prop_comment_removal == PropCommentRemoval::Enabled;
            let table = zip_entry_seq(bytes@);
            &&& (r matches Ok(plan) ==> (spec_extract_plan(
                package_id@,
                artifact_id@,
                read_entries(table),
                strip,
            ) matches Option::Some(p) && zip_wf(bytes@) && all_readable(table)
                && plan@.map_values(|w: PlannedWrite| w@) == p))
            &&& (r matches Err(e) ==> e is Archive && !(zip_wf(bytes@) && all_readable(table)
                && spec_extract_plan(package_id@, artifact_id@, read_entries(table), strip)
                is Some))
        },
{
    let ghost bv = bytes@;
    match config.packages.zip_extraction {
        ZipExtraction::Disabled => {
            let mut fname = artifact_id.to_owned();
            fname.append(".zip");
            proof {
                reveal_strlit(".zip");
                assert(".zip"@ =~= seq!['.', 'z', 'i', 'p']);
                assert(fname@ == zip_file_name(artifact_id@));
            }
            let mut path: Vec<String> = Vec::new();
            path.push(package_id.to_owned());
            path.push(fname);
            let w = PlannedWrite { path, contents: bytes };
            proof {
                assert(w@.path =~= seq![package_id@, zip_file_name(artifact_id@)]);
            }
            let mut plan: Vec<PlannedWrite> = Vec::new();
            plan.push(w);
            proof {
                assert(plan@.map_values(|w: PlannedWrite| w@) =~= spec_raw_plan(
                    package_id@,
                    artifact_id@,
                    bv,
                ));
            }
            Ok(plan)
        }
        ZipExtraction::Enabled => {
            let strip = match config.packages.prop_comment_removal {
                PropCommentRemoval::Enabled => true,
                PropCommentRemoval::Disabled => false,
            };
            let mut a = match zip_open(bytes) {
                None => {
                    return Err(Error::Archive("the archive cannot be read".to_owned()));
                }
                Some(a) => a,
            };
            let n = zip_len(&a);
            let ghost table = zip_entry_seq(bv);
            let mut entries: Vec<(String, Vec<u8>)> = Vec::new();
            let mut i: usize = 0;
            proof {
                assert(entries@.map_values(|e: (String, Vec<u8>)| (e.0@, e.1@)) =~= read_entries(
                    table,
                ).take(0));
            }
            while i < n
                invariant
                    bv == bytes@,
                    config.packages.zip_extraction == ZipExtraction::Enabled,
                    i <= n,
                    n == zip_contents(a).len(),
                    zip_contents(a) == zip_entry_seq(bv),
                    table == zip_entry_seq(bv),
                    forall|j: int| 0 <= j < i ==> (#[trigger] table[j]).1 is Some,
                    entries@.map_values(|e: (String, Vec<u8>)| (e.0@, e.1@)) == read_entries(
                        table,
                    ).take(i as int),
                decreases n - i,
            {
                let ghost pre = entries@.map_values(|e: (String, Vec<u8>)| (e.0@, e.1@));
                let e = match zip_entry(&mut a, i) {
                    None => {
                        proof {
                            assert(table[i as int].1 is None);
                            assert(!all_readable(table));
                        }
                        return Err(Error::Archive("an entry cannot be read".to_owned()));
                    }
                    Some(e) => e,
                };
                entries.push(e);
                proof {
                    assert(read_entries(table)[i as int] == (
                        table[i as int].0,
                        table[i as int].1.unwrap(),
                    ));
                    assert(entries@.map_values(|e: (String, Vec<u8>)| (e.0@, e.1@)) =~= pre.push(
                        read_entries(table)[i as int],
                    ));
                    assert(pre.push(read_entries(table)[i as int]) =~= read_entries(table).take(
                        i as int + 1,
                    ));
                }
                i += 1;
            }
            proof {
                assert(read_entries(table).take(n as int) =~= read_entries(table));
                assert(all_readable(table));
            }
            plan_entries(package_id, artifact_id, entries, strip)
        }
    }
}

} // verus!
