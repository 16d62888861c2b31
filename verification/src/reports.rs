//! The check over the AI assessments of the Ply renderer: every report
//! answers for the current checkout, the current deterministic artifacts and
//! a prompt of the manifest, passes, and gives its evidence; together the
//! reports come from two authors and cover both prompt groups. The field
//! that names a report's author is given by the caller.
use vstd::prelude::*;
use crate::json::{
    get, get_array, get_str, json_array, json_document, json_get, json_str, json_vs, parse_json_document,
    JsonNode, JsonV,
};
use crate::literal::u64_text;
use crate::strmap::{ins, lookup, StrMap};
use crate::text::{decimal, push_str, string_eq_str, string_eq_string};

verus! {

/// A prompt of the manifest: its path, hash and slug.
pub type PromptV = (Seq<char>, Seq<char>, Seq<char>);

pub open spec fn prompt_texts(v: Seq<(String, String, String)>) -> Seq<PromptV> {
    v.map_values(|p: (String, String, String)| (p.0@, p.1@, p.2@))
}

/// The text of a string field, or nothing.
pub open spec fn field_text(v: JsonV, key: Seq<char>) -> Seq<char> {
    match json_str(json_get(v, key)) {
        Some(s) => s,
        None => Seq::empty(),
    }
}

/// The prompts of a manifest's list, in order; the first prompt without a
/// path, hash or slug is refused.
pub open spec fn prompt_items(items: Seq<JsonV>) -> Result<Seq<PromptV>, Seq<char>>
    decreases items.len(),
{
    if items.len() == 0 {
        Ok(Seq::empty())
    } else {
        let p = items[0];
        match json_str(json_get(p, "path"@)) {
            None => Err("prompt missing path"@),
            Some(path) => match json_str(json_get(p, "sha256"@)) {
                None => Err("prompt missing sha256"@),
                Some(hash) => match json_str(json_get(p, "slug"@)) {
                    None => Err("prompt missing slug"@),
                    Some(slug) => match prompt_items(items.drop_first()) {
                        Ok(rest) => Ok(seq![(path, hash, slug)] + rest),
                        Err(e) => Err(e),
                    },
                },
            },
        }
    }
}

/// The hash and slug recorded for a prompt path: the last prompt with that
/// path wins.
pub open spec fn prompt_lookup(ps: Seq<PromptV>, path: Seq<char>) -> Option<(Seq<char>, Seq<char>)>
    decreases ps.len(),
{
    if ps.len() == 0 {
        None
    } else if ps.last().0 == path {
        Some((ps.last().1, ps.last().2))
    } else {
        prompt_lookup(ps.drop_last(), path)
    }
}

/// The string fields a report must give, nonempty: the author field first.
pub open spec fn report_string_fields(author: Seq<char>) -> Seq<Seq<char>> {
    seq![
        author,
        "model"@,
        "git_commit"@,
        "deterministic_report_sha256"@,
        "prompt_file"@,
        "prompt_sha256"@,
        "verdict"@,
    ]
}

/// The array fields a report must give, nonempty.
pub open spec fn report_array_fields() -> Seq<Seq<char>> {
    seq!["commands_run"@, "files_examined"@, "deterministic_artifacts_examined"@, "findings"@]
}

/// The first string field, from `k` on, that is missing or empty.
pub open spec fn first_empty_string(r: JsonV, fields: Seq<Seq<char>>, k: int) -> Option<int>
    decreases fields.len() - k,
{
    if k < 0 || k >= fields.len() {
        None
    } else if field_text(r, fields[k]).len() == 0 {
        Some(k)
    } else {
        first_empty_string(r, fields, k + 1)
    }
}

/// Whether a field holds a nonempty array.
pub open spec fn nonempty_array(r: JsonV, key: Seq<char>) -> bool {
    match json_array(json_get(r, key)) {
        Some(items) => items.len() > 0,
        None => false,
    }
}

/// The first array field, from `k` on, that is missing or empty.
pub open spec fn first_empty_array(r: JsonV, fields: Seq<Seq<char>>, k: int) -> Option<int>
    decreases fields.len() - k,
{
    if k < 0 || k >= fields.len() {
        None
    } else if !nonempty_array(r, fields[k]) {
        Some(k)
    } else {
        first_empty_array(r, fields, k + 1)
    }
}

/// The verdict on one report.
pub open spec fn report_verdict(
    r: JsonV,
    author: Seq<char>,
    commit: Seq<char>,
    dhash: Seq<char>,
    ps: Seq<PromptV>,
) -> Result<(), Seq<char>> {
    match first_empty_string(r, report_string_fields(author), 0) {
        Some(k) => Err("missing string field "@ + report_string_fields(author)[k]),
        None => if json_str(json_get(r, "git_commit"@)) != Some(commit) {
            Err("report git_commit does not match current checkout"@)
        } else if json_str(json_get(r, "deterministic_report_sha256"@)) != Some(dhash) {
            Err("report deterministic hash does not match current fresh-artifacts report"@)
        } else {
            let pf = field_text(r, "prompt_file"@);
            match prompt_lookup(ps, pf) {
                None => Err("report references unknown prompt file "@ + pf),
                Some((hash, _slug)) => if json_str(json_get(r, "prompt_sha256"@)) != Some(hash) {
                    Err("report prompt hash does not match prompt manifest"@)
                } else if json_str(json_get(r, "verdict"@)) != Some("pass"@) {
                    Err("AI review verdict is not pass"@)
                } else {
                    match first_empty_array(r, report_array_fields(), 0) {
                        Some(k) => Err("report field "@ + report_array_fields()[k] + " must be a nonempty array"@),
                        None => Ok(()),
                    }
                },
            }
        },
    }
}

/// A set of names, as the strictly increasing keys of a map.
pub type NameSet = Seq<(Seq<char>, bool)>;

/// The slugs that together cover the removal of the old renderers.
pub open spec fn removal_covered(slugs: NameSet) -> bool {
    lookup(slugs, "old-renderer-removal"@) is Some || lookup(slugs, "dependency-boundary"@) is Some
}

/// The slugs that together cover the behaviour of the native and browser
/// surfaces.
pub open spec fn behavior_covered(slugs: NameSet) -> bool {
    lookup(slugs, "architecture"@) is Some || lookup(slugs, "native-browser-behavior"@) is Some
}

/// The reports from position `i` on, read in order, with the authors and
/// covered slugs seen so far; then the checks over all of them.
pub open spec fn scan_reports(
    reports: Seq<(String, Result<String, String>)>,
    i: int,
    commit: Seq<char>,
    dhash: Seq<char>,
    ps: Seq<PromptV>,
    author: Seq<char>,
    authors: NameSet,
    slugs: NameSet,
) -> Result<(NameSet, NameSet), Seq<char>>
    decreases reports.len() - i,
{
    if i < 0 || i >= reports.len() {
        if authors.len() < 2 {
            Err("AI assessments must come from at least two distinct authors"@)
        } else if !removal_covered(slugs) || !behavior_covered(slugs) {
            Err("AI reviews must cover both old-renderer removal and native/browser Ply behavior"@)
        } else {
            Ok((authors, slugs))
        }
    } else {
        let path = reports[i].0@;
        match reports[i].1 {
            Err(e) => Err("failed to read "@ + path + ": "@ + e@),
            Ok(text) => match json_document(text@) {
                Err(e) => Err("AI review report is not JSON: "@ + path + ": "@ + e),
                Ok(r) => match report_verdict(r, author, commit, dhash, ps) {
                    Err(m) => Err("invalid AI review report "@ + path + ": "@ + m),
                    Ok(()) => {
                        let rv = ins(authors, field_text(r, author), true);
                        let sl = match prompt_lookup(ps, field_text(r, "prompt_file"@)) {
                            Some((_h, slug)) => ins(slugs, slug, true),
                            None => slugs,
                        };
                        scan_reports(reports, i + 1, commit, dhash, ps, author, rv, sl)
                    },
                },
            },
        }
    }
}

/// The outcome over all inputs: both documents are JSON, the checkout is
/// known, the fresh-artifact document gives the deterministic hash, the
/// manifest lists its prompts, at least two reports are given, and they pass
/// the checks above.
pub open spec fn reports_verdict(
    prompts_text: Seq<char>,
    fresh_text: Seq<char>,
    commit: Result<Seq<char>, Seq<char>>,
    author: Seq<char>,
    reports_dir: Seq<char>,
    reports: Seq<(String, Result<String, String>)>,
) -> Result<(NameSet, NameSet), Seq<char>> {
    match json_document(prompts_text) {
        Err(e) => Err(e),
        Ok(manifest) => match json_document(fresh_text) {
            Err(e) => Err(e),
            Ok(fresh) => match commit {
                Err(e) => Err(e),
                Ok(c) => match json_str(json_get(fresh, "deterministic_report_sha256"@)) {
                    None => Err("fresh artifact report missing deterministic_report_sha256"@),
                    Some(dhash) => match json_array(json_get(manifest, "prompts"@)) {
                        None => Err("prompt manifest missing prompts"@),
                        Some(items) => match prompt_items(items) {
                            Err(e) => Err(e),
                            Ok(ps) => if reports.len() < 2 {
                                Err("expected at least two AI review reports in "@ + reports_dir + ", found "@
                                    + decimal(reports.len()))
                            } else {
                                scan_reports(reports, 0, c, dhash, ps, author, Seq::empty(), Seq::empty())
                            },
                        },
                    },
                },
            },
        },
    }
}

/// What the check found: how many reports, by which authors, covering which
/// prompt slugs (both lists in increasing order, each name once).
#[derive(Debug, PartialEq, Eq)]
pub struct ReportCoverage {
    pub review_count: usize,
    pub authors: Vec<String>,
    pub covered_prompt_slugs: Vec<String>,
}

pub open spec fn names_of(s: NameSet) -> Seq<Seq<char>> {
    s.map_values(|e: (Seq<char>, bool)| e.0)
}

pub open spec fn str_texts<'a>(v: Seq<&'a str>) -> Seq<Seq<char>> {
    v.map_values(|s: &'a str| s@)
}

pub open spec fn texts_of(v: Seq<String>) -> Seq<Seq<char>> {
    v.map_values(|s: String| s@)
}

fn prompt_items_exec(items: &Vec<JsonNode>) -> (r: Result<Vec<(String, String, String)>, String>)
    ensures
        match prompt_items(json_vs(items@)) {
            Ok(ps) => r matches Ok(v) && prompt_texts(v@) == ps,
            Err(e) => r matches Err(m) && m@ == e,
        },
{
    let ghost all = json_vs(items@);
    let mut out: Vec<(String, String, String)> = Vec::new();
    let mut i: usize = 0;
    assert(all.skip(0) =~= all);
    while i < items.len()
        invariant
            i <= items@.len(),
            all == json_vs(items@),
            all.len() == items@.len(),
            prompt_items(all) == match prompt_items(all.skip(i as int)) {
                Ok(rest) => Ok(prompt_texts(out@) + rest),
                Err(e) => Err(e),
            },
        decreases items@.len() - i,
    {
        let p = &items[i];
        assert(all.skip(i as int)[0] == p@);
        assert(all.skip(i as int).drop_first() =~= all.skip(i + 1));
        let path = match get_str(p, "path") {
            None => {
                return Err("prompt missing path".to_owned());
            },
            Some(s) => s.clone(),
        };
        let hash = match get_str(p, "sha256") {
            None => {
                return Err("prompt missing sha256".to_owned());
            },
            Some(s) => s.clone(),
        };
        let slug = match get_str(p, "slug") {
            None => {
                return Err("prompt missing slug".to_owned());
            },
            Some(s) => s.clone(),
        };
        let ghost before = prompt_texts(out@);
        out.push((path, hash, slug));
        assert(prompt_texts(out@) =~= before.push((path@, hash@, slug@)));
        proof {
            match prompt_items(all.skip(i + 1)) {
                Ok(rest) => {
                    assert(before + (seq![(path@, hash@, slug@)] + rest) =~= prompt_texts(out@) + rest);
                },
                Err(_) => {},
            }
        }
        i = i + 1;
    }
    assert(all.skip(i as int) =~= Seq::<JsonV>::empty());
    assert(prompt_texts(out@) + Seq::<PromptV>::empty() =~= prompt_texts(out@));
    Ok(out)
}

fn prompt_lookup_exec(ps: &Vec<(String, String, String)>, path: &String) -> (r: Option<(String, String)>)
    ensures
        match prompt_lookup(prompt_texts(ps@), path@) {
            Some((h, s)) => r matches Some(x) && x.0@ == h && x.1@ == s,
            None => r is None,
        },
{
    let ghost all = prompt_texts(ps@);
    let mut k: usize = ps.len();
    assert(all.take(k as int) =~= all);
    while k > 0
        invariant
            k <= ps@.len(),
            all == prompt_texts(ps@),
            all.len() == ps@.len(),
            prompt_lookup(all, path@) == prompt_lookup(all.take(k as int), path@),
        decreases k,
    {
        assert(all.take(k as int).last() == all[k - 1]);
        assert(all.take(k as int).drop_last() =~= all.take(k - 1));
        if string_eq_string(&ps[k - 1].0, path) {
            return Some((ps[k - 1].1.clone(), ps[k - 1].2.clone()));
        }
        k = k - 1;
    }
    None
}

fn first_empty_string_exec<'a>(r: &JsonNode, fields: &Vec<&'a str>) -> (k: Option<usize>)
    ensures
        match first_empty_string(r@, str_texts(fields@), 0) {
            Some(j) => k == Some(j as usize) && 0 <= j < fields@.len(),
            None => k is None,
        },
{
    let ghost fs = str_texts(fields@);
    let mut i: usize = 0;
    while i < fields.len()
        invariant
            i <= fields@.len(),
            fs == str_texts(fields@),
            first_empty_string(r@, fs, 0) == first_empty_string(r@, fs, i as int),
        decreases fields@.len() - i,
    {
        assert(fs[i as int] == fields@[i as int]@);
        let empty = match get_str(r, fields[i]) {
            Some(s) => s.as_str().unicode_len() == 0,
            None => true,
        };
        if empty {
            return Some(i);
        }
        i = i + 1;
    }
    None
}

fn first_empty_array_exec(r: &JsonNode, fields: &Vec<&'static str>) -> (k: Option<usize>)
    ensures
        match first_empty_array(r@, crate::examples::lits(fields@), 0) {
            Some(j) => k == Some(j as usize) && 0 <= j < fields@.len(),
            None => k is None,
        },
{
    let ghost fs = crate::examples::lits(fields@);
    let mut i: usize = 0;
    while i < fields.len()
        invariant
            i <= fields@.len(),
            fs == crate::examples::lits(fields@),
            first_empty_array(r@, fs, 0) == first_empty_array(r@, fs, i as int),
        decreases fields@.len() - i,
    {
        assert(fs[i as int] == fields@[i as int]@);
        let full = match get_array(r, fields[i]) {
            Some(a) => a.len() > 0,
            None => false,
        };
        if !full {
            return Some(i);
        }
        i = i + 1;
    }
    None
}

fn same_str(a: Option<&String>, b: &str) -> (r: bool)
    ensures
        r == (match a {
            Some(s) => Some(s@),
            None => None,
        } == Some(b@)),
{
    match a {
        Some(s) => string_eq_str(s, b),
        None => false,
    }
}

/// Checks one report against the checkout, the deterministic hash and the
/// prompt manifest.
pub fn validate_ai_review_report(
    report: &JsonNode,
    author_field: &str,
    current_commit: &str,
    deterministic_hash: &str,
    prompts: &Vec<(String, String, String)>,
) -> (r: Result<(), String>)
    ensures
        match report_verdict(report@, author_field@, current_commit@, deterministic_hash@, prompt_texts(prompts@)) {
            Ok(()) => r is Ok,
            Err(e) => r matches Err(m) && m@ == e,
        },
{
    let strings = vec![
        author_field,
        "model",
        "git_commit",
        "deterministic_report_sha256",
        "prompt_file",
        "prompt_sha256",
        "verdict",
    ];
    proof {
        reveal_strlit("model");
        reveal_strlit("git_commit");
        reveal_strlit("deterministic_report_sha256");
        reveal_strlit("prompt_file");
        reveal_strlit("prompt_sha256");
        reveal_strlit("verdict");
        assert(str_texts(strings@) =~= report_string_fields(author_field@));
    }
    match first_empty_string_exec(report, &strings) {
        Some(k) => {
            let mut e = "missing string field ".to_owned();
            assert(str_texts(strings@)[k as int] == strings[k as int]@);
            push_str(&mut e, strings[k]);
            return Err(e);
        },
        None => {},
    }
    if !same_str(get_str(report, "git_commit"), current_commit) {
        return Err("report git_commit does not match current checkout".to_owned());
    }
    if !same_str(get_str(report, "deterministic_report_sha256"), deterministic_hash) {
        return Err("report deterministic hash does not match current fresh-artifacts report".to_owned());
    }
    let pf = match get_str(report, "prompt_file") {
        Some(s) => s.clone(),
        None => String::new(),
    };
    let hash = match prompt_lookup_exec(prompts, &pf) {
        None => {
            let mut e = "report references unknown prompt file ".to_owned();
            push_str(&mut e, pf.as_str());
            return Err(e);
        },
        Some((h, _slug)) => h,
    };
    if !same_str(get_str(report, "prompt_sha256"), hash.as_str()) {
        return Err("report prompt hash does not match prompt manifest".to_owned());
    }
    if !same_str(get_str(report, "verdict"), "pass") {
        return Err("AI review verdict is not pass".to_owned());
    }
    let arrays = vec!["commands_run", "files_examined", "deterministic_artifacts_examined", "findings"];
    proof {
        reveal_strlit("commands_run");
        reveal_strlit("files_examined");
        reveal_strlit("deterministic_artifacts_examined");
        reveal_strlit("findings");
        assert(crate::examples::lits(arrays@) =~= report_array_fields());
    }
    match first_empty_array_exec(report, &arrays) {
        Some(k) => {
            let mut e = "report field ".to_owned();
            assert(crate::examples::lits(arrays@)[k as int] == arrays[k as int]@);
            push_str(&mut e, arrays[k]);
            push_str(&mut e, " must be a nonempty array");
            Err(e)
        },
        None => Ok(()),
    }
}

fn keys_of(m: &StrMap<bool>) -> (r: Vec<String>)
    ensures
        texts_of(r@) == names_of(m.model()),
{
    let mut out: Vec<String> = Vec::new();
    let mut i: usize = 0;
    while i < m.entries.len()
        invariant
            i <= m.entries@.len(),
            m.model().len() == m.entries@.len(),
            texts_of(out@) == names_of(m.model()).take(i as int),
        decreases m.entries@.len() - i,
    {
        let ghost before = texts_of(out@);
        out.push(m.entries[i].0.clone());
        assert(texts_of(out@) =~= before.push(m.entries@[i as int].0@));
        assert(names_of(m.model()).take(i + 1) =~= names_of(m.model()).take(i as int).push(
            m.model()[i as int].0,
        ));
        i = i + 1;
    }
    assert(names_of(m.model()).take(i as int) =~= names_of(m.model()));
    out
}

/// The check over the AI assessments. `commit` is what asking git for the
/// checkout gave; `author_field` is the field that names a report's author;
/// `reports` are the report files of `reports_dir` in path order, each with
/// its text or the error of reading it.
pub fn check_ai_review_reports(
    prompts_text: &str,
    fresh_text: &str,
    commit: &Result<String, String>,
    author_field: &str,
    reports_dir: &str,
    reports: &Vec<(String, Result<String, String>)>,
) -> (r: Result<ReportCoverage, String>)
    ensures
        match reports_verdict(
            prompts_text@,
            fresh_text@,
            match commit {
                Ok(c) => Ok(c@),
                Err(e) => Err(e@),
            },
            author_field@,
            reports_dir@,
            reports@,
        ) {
            Ok((rv, sl)) => r matches Ok(c) && c.review_count == reports@.len() && texts_of(c.authors@)
                == names_of(rv) && texts_of(c.covered_prompt_slugs@) == names_of(sl),
            Err(e) => r matches Err(m) && m@ == e,
        },
{
    let manifest = match parse_json_document(prompts_text) {
        Err(e) => {
            return Err(e);
        },
        Ok(m) => m,
    };
    let fresh = match parse_json_document(fresh_text) {
        Err(e) => {
            return Err(e);
        },
        Ok(f) => f,
    };
    let c = match commit {
        Err(e) => {
            return Err(e.clone());
        },
        Ok(c) => c,
    };
    let dhash = match get_str(&fresh, "deterministic_report_sha256") {
        None => {
            return Err("fresh artifact report missing deterministic_report_sha256".to_owned());
        },
        Some(h) => h,
    };
    let items = match get_array(&manifest, "prompts") {
        None => {
            return Err("prompt manifest missing prompts".to_owned());
        },
        Some(a) => a,
    };
    let prompts = match prompt_items_exec(items) {
        Err(e) => {
            return Err(e);
        },
        Ok(p) => p,
    };
    let ghost ps = prompt_texts(prompts@);
    if reports.len() < 2 {
        let mut e = "expected at least two AI review reports in ".to_owned();
        push_str(&mut e, reports_dir);
        push_str(&mut e, ", found ");
        let n = u64_text(reports.len() as u64);
        push_str(&mut e, n.as_str());
        return Err(e);
    }
    let ghost verdict = reports_verdict(
        prompts_text@,
        fresh_text@,
        match commit {
            Ok(c) => Ok(c@),
            Err(e) => Err(e@),
        },
        author_field@,
        reports_dir@,
        reports@,
    );
    assert(verdict == scan_reports(reports@, 0, c@, dhash@, ps, author_field@, Seq::empty(), Seq::empty()));
    let mut authors: StrMap<bool> = StrMap::new();
    let mut slugs: StrMap<bool> = StrMap::new();
    let mut i: usize = 0;
    while i < reports.len()
        invariant
            i <= reports@.len(),
            ps == prompt_texts(prompts@),
            commit == Ok::<String, String>(*c),
            verdict == reports_verdict(
                prompts_text@,
                fresh_text@,
                match commit {
                    Ok(c) => Ok(c@),
                    Err(e) => Err(e@),
                },
                author_field@,
                reports_dir@,
                reports@,
            ),
            verdict == scan_reports(
                reports@,
                i as int,
                c@,
                dhash@,
                ps,
                author_field@,
                authors.model(),
                slugs.model(),
            ),
        decreases reports@.len() - i,
    {
        let path = &reports[i].0;
        let text = match &reports[i].1 {
            Err(e) => {
                let mut m = "failed to read ".to_owned();
                push_str(&mut m, path.as_str());
                push_str(&mut m, ": ");
                push_str(&mut m, e.as_str());
                return Err(m);
            },
            Ok(t) => t,
        };
        let report = match parse_json_document(text.as_str()) {
            Err(e) => {
                let mut m = "AI review report is not JSON: ".to_owned();
                push_str(&mut m, path.as_str());
                push_str(&mut m, ": ");
                push_str(&mut m, e.as_str());
                return Err(m);
            },
            Ok(r) => r,
        };
        match validate_ai_review_report(&report, author_field, c.as_str(), dhash.as_str(), &prompts) {
            Err(e) => {
                let mut m = "invalid AI review report ".to_owned();
                push_str(&mut m, path.as_str());
                push_str(&mut m, ": ");
                push_str(&mut m, e.as_str());
                return Err(m);
            },
            Ok(()) => {},
        }
        let who = match get_str(&report, author_field) {
            Some(s) => s.clone(),
            None => String::new(),
        };
        authors.insert(who, true);
        let pf = match get_str(&report, "prompt_file") {
            Some(s) => s.clone(),
            None => String::new(),
        };
        match prompt_lookup_exec(&prompts, &pf) {
            Some((_h, slug)) => {
                slugs.insert(slug, true);
            },
            None => {},
        }
        i = i + 1;
    }
    if authors.entries.len() < 2 {
        return Err("AI assessments must come from at least two distinct authors".to_owned());
    }
    let removal = slugs.get("old-renderer-removal").is_some() || slugs.get("dependency-boundary").is_some();
    let behavior = slugs.get("architecture").is_some() || slugs.get("native-browser-behavior").is_some();
    if !removal || !behavior {
        return Err(
            "AI reviews must cover both old-renderer removal and native/browser Ply behavior".to_owned(),
        );
    }
    Ok(
        ReportCoverage {
            review_count: reports.len(),
            authors: keys_of(&authors),
            covered_prompt_slugs: keys_of(&slugs),
        },
    )
}

} // verus!
