//! Loading the file list and computing the rename preview: scan, transform,
//! collision count and optional auto-numbering, and the status line.

use vstd::prelude::*;
use crate::conflict::{
    count_repeated_keys, count_repeats, key, key_of, pick_free_name, renumbered, vviews,
};
use crate::exclusion::{invalid_tokens, ExclusionSet};
use crate::path::{basename, basename_of};
use crate::scan::{scan_paths, scanned, views};
use crate::state::{records, AppState, FileEntry, PreviewInputs, RecordView};
use crate::text::{decimal, fold, fold_chars_of, push_decimal};
use crate::transform::{transform_name, transformed};

verus! {

/// The paths of a directory listing, or `None` where the directory is missing.
pub open spec fn listing_view(listing: &Option<Vec<String>>) -> Option<Seq<Seq<char>>> {
    match listing {
        Some(l) => Some(views(l@)),
        None => None,
    }
}

/// The record that a scan makes for `path`: its name unchanged.
pub open spec fn loaded_record(path: Seq<char>, s: PreviewInputs) -> RecordView {
    RecordView {
        path,
        new_name: basename(path),
        search: s.search,
        replace: s.replace,
        case_sensitive: s.case_sensitive,
    }
}

/// The records of a scan of `listing`.
pub open spec fn loaded(listing: Seq<Seq<char>>, s: PreviewInputs) -> Seq<RecordView> {
    scanned(listing, s.exclude).map_values(|p: Seq<char>| loaded_record(p, s))
}

pub open spec fn not_found_status() -> Seq<char> {
    "ディレクトリが見つかりません"@
}

/// The status after loading `count` files, `invalid` exclusion tokens having
/// failed to compile.
pub open spec fn load_status(count: nat, invalid: nat) -> Seq<char> {
    if invalid == 0 {
        "ファイル "@ + decimal(count) + " 件を読み込み"@
    } else {
        "ファイル "@ + decimal(count) + " 件を読み込み (除外パターンのエラー "@ + decimal(invalid)
            + " 件)"@
    }
}

/// The status line of a load.
pub fn load_status_text(count: usize, invalid: usize) -> (r: String)
    ensures
        r@ == load_status(count as nat, invalid as nat),
{
    let mut r = String::from_str("ファイル ");
    push_decimal(&mut r, count as u128);
    if invalid == 0 {
        r.append(" 件を読み込み");
    } else {
        r.append(" 件を読み込み (除外パターンのエラー ");
        push_decimal(&mut r, invalid as u128);
        r.append(" 件)");
    }
    r
}

/// Scans the listing of the selected directory into `data.files`, each with
/// its name unchanged, and reports the count. `None` stands for a directory
/// that is missing or not a directory: the list becomes empty.
pub fn load_files(data: &mut AppState, listing: &Option<Vec<String>>)
    ensures
        final(data).same_settings(old(data)),
        final(data).preview_files == old(data).preview_files,
        match listing_view(listing) {
            None => {
                &&& final(data).files@.len() == 0
                &&& final(data).status_message@ == not_found_status()
            },
            Some(l) => {
                &&& records(final(data).files@) == loaded(l, old(data).inputs())
                &&& final(data).status_message@ == load_status(
                    final(data).files@.len(),
                    invalid_tokens(old(data).exclude_pattern@),
                )
            },
        },
{
    match listing {
        None => {
            data.files = Vec::new();
            data.status_message = String::from_str("ディレクトリが見つかりません");
        },
        Some(l) => {
            let set = ExclusionSet::compile(data.exclude_pattern.as_str());
            let paths = scan_paths(l, &set);
            let ghost s = data.inputs();
            let mut files: Vec<FileEntry> = Vec::new();
            let mut i: usize = 0;
            while i < paths.len()
                invariant
                    i <= paths.len(),
                    s == data.inputs(),
                    records(files@) == views(paths@).take(i as int).map_values(
                        |p: Seq<char>| loaded_record(p, s),
                    ),
                decreases paths.len() - i,
            {
                let entry = FileEntry {
                    original_path: paths[i].clone(),
                    new_name: basename_of(paths[i].as_str()),
                    search_pattern: data.search_pattern.clone(),
                    replace_pattern: data.replace_pattern.clone(),
                    case_sensitive: data.case_sensitive,
                };
                assert(views(paths@)[i as int] == paths@[i as int]@);
                assert(entry@ == loaded_record(views(paths@)[i as int], s));
                let ghost before = records(files@);
                files.push(entry);
                assert(records(files@) =~= before.push(entry@));
                i += 1;
                assert(records(files@) =~= views(paths@).take(i as int).map_values(
                    |p: Seq<char>| loaded_record(p, s),
                ));
            }
            assert(views(paths@).take(i as int) =~= views(paths@));
            let count = files.len();
            data.files = files;
            data.status_message = load_status_text(count, set.invalid());
        },
    }
}

/// `r` with the name that the search and replace settings of `s` give it.
pub open spec fn retitled(r: RecordView, s: PreviewInputs) -> RecordView {
    RecordView {
        new_name: transformed(basename(r.path), s.search, s.replace, s.case_sensitive, s.use_regex),
        ..r
    }
}

/// A record whose proposed name differs from its current base name.
pub open spec fn is_changed(r: RecordView) -> bool {
    r.new_name != basename(r.path)
}

/// The positions of the changed records of `rs`, in order.
pub open spec fn changed_positions(rs: Seq<RecordView>) -> Seq<int>
    decreases rs.len(),
{
    if rs.len() == 0 {
        Seq::empty()
    } else if is_changed(rs.last()) {
        changed_positions(rs.drop_last()).push(rs.len() - 1)
    } else {
        changed_positions(rs.drop_last())
    }
}

/// The (path, proposed name) pairs of the records of `rs` at positions `c`.
pub open spec fn proposals(rs: Seq<RecordView>, c: Seq<int>) -> Seq<(Seq<char>, Seq<char>)> {
    c.map_values(|i: int| (rs[i].path, rs[i].new_name))
}

/// The collision keys of a list of proposals.
pub open spec fn proposal_keys(
    items: Seq<(Seq<char>, Seq<char>)>,
    fold_case: bool,
) -> Seq<Seq<char>> {
    items.map_values(|it: (Seq<char>, Seq<char>)| key(it.0, it.1, fold_case))
}

/// The keys taken before auto-numbering: the current path of every record.
pub open spec fn seed_keys(rs: Seq<RecordView>, fold_case: bool) -> Seq<Seq<char>> {
    rs.map_values(|r: RecordView| fold(fold_case, r.path))
}

/// `rs` with the names `names` given to the records at positions `c`.
pub open spec fn with_names(rs: Seq<RecordView>, c: Seq<int>, names: Seq<Seq<char>>) -> Seq<
    RecordView,
>
    decreases c.len(),
{
    if c.len() == 0 {
        rs
    } else {
        with_names(rs, c.drop_last(), names.drop_last()).update(
            c.last(),
            RecordView { new_name: names.last(), ..rs[c.last()] },
        )
    }
}

/// Auto-numbering of the changed records of `rs`.
pub open spec fn numbering(
    rs: Seq<RecordView>,
    fold_case: bool,
) -> (Seq<Seq<char>>, Seq<Seq<char>>, nat) {
    renumbered(proposals(rs, changed_positions(rs)), seed_keys(rs, fold_case), fold_case)
}

/// The records after the preview: auto-numbered where that is asked for.
pub open spec fn final_records(
    rs: Seq<RecordView>,
    auto_number: bool,
    fold_case: bool,
) -> Seq<RecordView> {
    if auto_number && changed_positions(rs).len() > 0 {
        with_names(rs, changed_positions(rs), numbering(rs, fold_case).0)
    } else {
        rs
    }
}

/// The records of `fs` at positions `c`.
pub open spec fn pick_records(fs: Seq<RecordView>, c: Seq<int>) -> Seq<RecordView> {
    c.map_values(|i: int| fs[i])
}

/// The status after a preview with `changed` changed records, `dups` of them
/// colliding with an earlier one and `renumbered` of them auto-numbered.
pub open spec fn preview_status(changed: nat, dups: nat, renumbered: nat, auto_number: bool) -> Seq<
    char,
> {
    if auto_number && renumbered > 0 {
        "プレビュー更新 (変更 "@ + decimal(changed) + " 件, 連番付与 "@ + decimal(renumbered)
            + " 件)"@
    } else if !auto_number && dups > 0 {
        "プレビュー更新 (変更 "@ + decimal(changed) + " 件, 重複 "@ + decimal(dups) + " 件)"@
    } else {
        "プレビュー更新 (変更 "@ + decimal(changed) + " 件)"@
    }
}

/// The status line of a preview.
pub fn preview_status_text(changed: usize, dups: usize, renumbered: usize, auto_number: bool) -> (r:
    String)
    ensures
        r@ == preview_status(changed as nat, dups as nat, renumbered as nat, auto_number),
{
    let mut r = String::from_str("プレビュー更新 (変更 ");
    push_decimal(&mut r, changed as u128);
    if auto_number && renumbered > 0 {
        r.append(" 件, 連番付与 ");
        push_decimal(&mut r, renumbered as u128);
        r.append(" 件)");
    } else if !auto_number && dups > 0 {
        r.append(" 件, 重複 ");
        push_decimal(&mut r, dups as u128);
        r.append(" 件)");
    } else {
        r.append(" 件)");
    }
    r
}

pub proof fn lemma_changed_positions(rs: Seq<RecordView>)
    ensures
        changed_positions(rs).len() <= rs.len(),
        forall|k: int|
            0 <= k < changed_positions(rs).len() ==> 0 <= #[trigger] changed_positions(rs)[k]
                < rs.len(),
    decreases rs.len(),
{
    if rs.len() > 0 {
        lemma_changed_positions(rs.drop_last());
    }
}

/// Gives every record of `data.files` the name that the search and replace
/// settings make of its base name.
fn retitle_files(data: &mut AppState)
    ensures
        final(data).same_settings(old(data)),
        final(data).preview_files == old(data).preview_files,
        final(data).status_message == old(data).status_message,
        records(final(data).files@) == records(old(data).files@).map_values(
            |r: RecordView| retitled(r, old(data).inputs()),
        ),
{
    let ghost s = data.inputs();
    let ghost rs = records(data.files@);
    let mut out: Vec<FileEntry> = Vec::new();
    let mut i: usize = 0;
    while i < data.files.len()
        invariant
            i <= data.files.len(),
            s == data.inputs(),
            rs == records(data.files@),
            records(out@) == rs.take(i as int).map_values(|r: RecordView| retitled(r, s)),
        decreases data.files.len() - i,
    {
        let f = &data.files[i];
        let name = basename_of(f.original_path.as_str());
        let new_name = transform_name(
            name.as_str(),
            data.search_pattern.as_str(),
            data.replace_pattern.as_str(),
            data.case_sensitive,
            data.use_regex,
        );
        let entry = FileEntry {
            original_path: f.original_path.clone(),
            new_name,
            search_pattern: f.search_pattern.clone(),
            replace_pattern: f.replace_pattern.clone(),
            case_sensitive: f.case_sensitive,
        };
        assert(rs[i as int] == f@);
        assert(entry@ == retitled(rs[i as int], s));
        let ghost before = records(out@);
        out.push(entry);
        assert(records(out@) =~= before.push(entry@));
        i += 1;
        assert(records(out@) =~= rs.take(i as int).map_values(|r: RecordView| retitled(r, s)));
    }
    assert(rs.take(i as int) =~= rs);
    data.files = out;
}

/// The positions of the changed records of `files`.
fn changed_indices(files: &Vec<FileEntry>) -> (r: Vec<usize>)
    ensures
        r@.map_values(|i: usize| i as int) == changed_positions(records(files@)),
        forall|k: int| 0 <= k < r.len() ==> #[trigger] r@[k] < files.len(),
{
    let ghost rs = records(files@);
    let mut r: Vec<usize> = Vec::new();
    let mut i: usize = 0;
    assert(rs.take(0) =~= Seq::<RecordView>::empty());
    assert(r@.map_values(|i: usize| i as int) =~= Seq::<int>::empty());
    while i < files.len()
        invariant
            i <= files.len(),
            rs == records(files@),
            r@.map_values(|i: usize| i as int) == changed_positions(rs.take(i as int)),
            forall|k: int| 0 <= k < r.len() ==> #[trigger] r@[k] < i,
        decreases files.len() - i,
    {
        assert(rs.take(i + 1).drop_last() =~= rs.take(i as int));
        assert(rs.take(i + 1).last() == files@[i as int]@);
        let name = basename_of(files[i].original_path.as_str());
        let ghost before = r@;
        if !(name == files[i].new_name) {
            r.push(i);
            assert(r@.map_values(|i: usize| i as int) =~= before.map_values(|i: usize| i as int).push(
                i as int,
            ));
        }
        i += 1;
    }
    assert(rs.take(i as int) =~= rs);
    r
}

pub proof fn lemma_with_names_shape(rs: Seq<RecordView>, c: Seq<int>, names: Seq<Seq<char>>)
    requires
        forall|k: int| 0 <= k < c.len() ==> 0 <= #[trigger] c[k] < rs.len(),
    ensures
        with_names(rs, c, names).len() == rs.len(),
        forall|i: int|
            0 <= i < rs.len() ==> #[trigger] with_names(rs, c, names)[i] == (RecordView {
                new_name: with_names(rs, c, names)[i].new_name,
                ..rs[i]
            }),
    decreases c.len(),
{
    if c.len() > 0 {
        lemma_with_names_shape(rs, c.drop_last(), names.drop_last());
    }
}

/// The collision keys of the records of `files` at positions `idx`.
fn proposal_keys_of(
    files: &Vec<FileEntry>,
    idx: &Vec<usize>,
    fold_case: bool,
) -> (r: Vec<Vec<char>>)
    requires
        forall|k: int| 0 <= k < idx.len() ==> #[trigger] idx@[k] < files.len(),
    ensures
        vviews(r@) == proposal_keys(
            proposals(records(files@), idx@.map_values(|i: usize| i as int)), fold_case,
        ),
{
    let ghost all = proposal_keys(proposals(records(files@), idx@.map_values(|i: usize| i as int)), fold_case);
    let mut r: Vec<Vec<char>> = Vec::new();
    let mut k: usize = 0;
    while k < idx.len()
        invariant
            k <= idx.len(),
            forall|j: int| 0 <= j < idx.len() ==> #[trigger] idx@[j] < files.len(),
            all == proposal_keys(proposals(records(files@), idx@.map_values(|i: usize| i as int)), fold_case),
            vviews(r@) == all.take(k as int),
        decreases idx.len() - k,
    {
        let f = &files[idx[k]];
        let kk = key_of(f.original_path.as_str(), f.new_name.as_str(), fold_case);
        assert(records(files@)[idx@[k as int] as int] == f@);
        assert(idx@.map_values(|i: usize| i as int)[k as int] == idx@[k as int] as int);
        assert(all[k as int] == kk@);
        let ghost before = vviews(r@);
        r.push(kk);
        assert(vviews(r@) =~= before.push(kk@));
        k += 1;
        assert(vviews(r@) =~= all.take(k as int));
    }
    assert(all.take(k as int) =~= all);
    r
}

/// Auto-numbers the changed records of `files`, at positions `idx`, and
/// returns how many received a counter.
fn auto_number(files: &mut Vec<FileEntry>, idx: &Vec<usize>, fold_case: bool) -> (r: usize)
    requires
        idx@.map_values(|i: usize| i as int) == changed_positions(records(old(files)@)),
        forall|k: int| 0 <= k < idx.len() ==> #[trigger] idx@[k] < old(files).len(),
    ensures
        records(final(files)@) == with_names(
            records(old(files)@),
            changed_positions(records(old(files)@)),
            numbering(records(old(files)@), fold_case).0,
        ),
        r == numbering(records(old(files)@), fold_case).2,
{
    let ghost rs = records(files@);
    let ghost c = changed_positions(rs);
    let ghost items = proposals(rs, c);
    proof {
        lemma_changed_positions(rs);
    }
    let mut used: Vec<Vec<char>> = Vec::new();
    let mut i: usize = 0;
    while i < files.len()
        invariant
            i <= files.len(),
            rs == records(files@),
            vviews(used@) == seed_keys(rs, fold_case).take(i as int),
        decreases files.len() - i,
    {
        let lk = fold_chars_of(fold_case, files[i].original_path.as_str());
        assert(seed_keys(rs, fold_case)[i as int] == lk@);
        let ghost before = vviews(used@);
        used.push(lk);
        assert(vviews(used@) =~= before.push(lk@));
        i += 1;
        assert(vviews(used@) =~= seed_keys(rs, fold_case).take(i as int));
    }
    assert(seed_keys(rs, fold_case).take(i as int) =~= seed_keys(rs, fold_case));
    let ghost seeds = seed_keys(rs, fold_case);
    let mut names: Vec<String> = Vec::new();
    let mut count: usize = 0;
    let mut k: usize = 0;
    assert(items.take(0) =~= Seq::<(Seq<char>, Seq<char>)>::empty());
    assert(views(names@) =~= Seq::<Seq<char>>::empty());
    while k < idx.len()
        invariant
            k <= idx.len(),
            idx.len() <= files.len(),
            rs == records(files@),
            c == changed_positions(rs),
            items == proposals(rs, c),
            seeds == seed_keys(rs, fold_case),
            idx@.map_values(|i: usize| i as int) == c,
            forall|j: int| 0 <= j < idx.len() ==> #[trigger] idx@[j] < files.len(),
            used.len() == files.len() + k,
            names.len() == k,
            count <= k,
            renumbered(items.take(k as int), seeds, fold_case) == (
                views(names@),
                vviews(used@),
                count as nat,
            ),
        decreases idx.len() - k,
    {
        let j = idx[k];
        let f = &files[j];
        assert(c[k as int] == j as int);
        assert(items.take(k + 1).drop_last() =~= items.take(k as int));
        assert(items.take(k + 1).last() == (rs[j as int].path, rs[j as int].new_name));
        let (chosen, was_numbered) = pick_free_name(&used, f.original_path.as_str(), &f.new_name, fold_case);
        let kk = key_of(f.original_path.as_str(), chosen.as_str(), fold_case);
        let ghost used_before = vviews(used@);
        used.push(kk);
        assert(vviews(used@) =~= used_before.push(kk@));
        let ghost before = views(names@);
        names.push(chosen);
        assert(views(names@) =~= before.push(chosen@));
        if was_numbered {
            count += 1;
        }
        k += 1;
    }
    assert(items.take(k as int) =~= items);
    let ghost new_names = views(names@);
    assert(c.take(0) =~= Seq::<int>::empty());
    let mut k: usize = 0;
    while k < idx.len()
        invariant
            k <= idx.len(),
            idx.len() == names.len(),
            idx@.map_values(|i: usize| i as int) == c,
            forall|j: int| 0 <= j < idx.len() ==> #[trigger] idx@[j] < files.len(),
            forall|j: int| 0 <= j < c.len() ==> 0 <= #[trigger] c[j] < rs.len(),
            files.len() == rs.len(),
            new_names == views(names@),
            records(files@) == with_names(rs, c.take(k as int), new_names.take(k as int)),
        decreases idx.len() - k,
    {
        let j = idx[k];
        assert(c[k as int] == j as int);
        proof {
            lemma_with_names_shape(rs, c.take(k as int), new_names.take(k as int));
        }
        assert(records(files@)[j as int] == files@[j as int]@);
        let entry = FileEntry {
            original_path: files[j].original_path.clone(),
            new_name: names[k].clone(),
            search_pattern: files[j].search_pattern.clone(),
            replace_pattern: files[j].replace_pattern.clone(),
            case_sensitive: files[j].case_sensitive,
        };
        let ghost before = records(files@);
        files[j] = entry;
        assert(c.take(k + 1).drop_last() =~= c.take(k as int));
        assert(new_names.take(k + 1).drop_last() =~= new_names.take(k as int));
        assert(records(files@) =~= before.update(j as int, entry@));
        k += 1;
    }
    assert(c.take(k as int) =~= c);
    assert(new_names.take(k as int) =~= new_names);
    count
}

/// The records after a scan of `l` and the transformation of their names.
pub open spec fn retitled_scan(l: Seq<Seq<char>>, s: PreviewInputs) -> Seq<RecordView> {
    loaded(l, s).map_values(|r: RecordView| retitled(r, s))
}

/// How many changed records of `rs` collide with an earlier one.
pub open spec fn duplicate_count(rs: Seq<RecordView>, fold_case: bool) -> nat {
    count_repeats(proposal_keys(proposals(rs, changed_positions(rs)), fold_case))
}

/// How many changed records of `rs` auto-numbering gives a counter.
pub open spec fn renumbered_count(rs: Seq<RecordView>, auto_number: bool, fold_case: bool) -> nat {
    if auto_number && changed_positions(rs).len() > 0 {
        numbering(rs, fold_case).2
    } else {
        0
    }
}

/// `after` is what a preview of `listing` makes of `before`.
pub open spec fn previewed(
    before: &AppState,
    after: &AppState,
    listing: Option<Seq<Seq<char>>>,
) -> bool {
    &&& after.same_settings(before)
    &&& match listing {
        None => {
            &&& after.files@.len() == 0
            &&& after.preview_files@.len() == 0
            &&& after.status_message@ == not_found_status()
        },
        Some(l) => {
            let s = before.inputs();
            let rs = retitled_scan(l, s);
            let fold_case = s.fold_case;
            let fs = final_records(rs, s.auto_number, fold_case);
            &&& records(after.files@) == fs
            &&& records(after.preview_files@) == pick_records(fs, changed_positions(rs))
            &&& after.status_message@ == preview_status(
                changed_positions(rs).len(),
                duplicate_count(rs, fold_case),
                renumbered_count(rs, s.auto_number, fold_case),
                s.auto_number,
            )
        },
    }
}

/// Rescans the listing, computes every record's new name, the preview of the
/// changed ones, the collision count and, if asked for, the auto-numbering,
/// and sets the status line.
pub fn update_preview(data: &mut AppState, listing: &Option<Vec<String>>)
    ensures
        previewed(old(data), final(data), listing_view(listing)),
{
    load_files(data, listing);
    match listing {
        None => {
            data.preview_files = Vec::new();
            return;
        },
        Some(_) => {},
    }
    let ghost s = data.inputs();
    let fold_case = data.case_insensitive_targets;
    retitle_files(data);
    let ghost rs = records(data.files@);
    let idx = changed_indices(&data.files);
    proof {
        lemma_changed_positions(rs);
    }
    let keys = proposal_keys_of(&data.files, &idx, fold_case);
    let dups = count_repeated_keys(&keys);
    let mut renumbered: usize = 0;
    if data.auto_number_on_conflict && idx.len() > 0 {
        renumbered = auto_number(&mut data.files, &idx, fold_case);
    }
    let ghost fs = records(data.files@);
    proof {
        lemma_with_names_shape(rs, changed_positions(rs), numbering(rs, fold_case).0);
    }
    let mut preview: Vec<FileEntry> = Vec::new();
    let mut k: usize = 0;
    while k < idx.len()
        invariant
            k <= idx.len(),
            fs == records(data.files@),
            data.files.len() == rs.len(),
            idx@.map_values(|i: usize| i as int) == changed_positions(rs),
            forall|j: int| 0 <= j < idx.len() ==> #[trigger] idx@[j] < data.files.len(),
            records(preview@) == pick_records(fs, changed_positions(rs)).take(k as int),
        decreases idx.len() - k,
    {
        let e = data.files[idx[k]].duplicate();
        assert(idx@.map_values(|i: usize| i as int)[k as int] == idx@[k as int] as int);
        let ghost before = records(preview@);
        preview.push(e);
        assert(records(preview@) =~= before.push(e@));
        assert(e@ == fs[idx@[k as int] as int]);
        k += 1;
        assert(records(preview@) =~= pick_records(fs, changed_positions(rs)).take(k as int));
    }
    assert(pick_records(fs, changed_positions(rs)).take(k as int) =~= pick_records(
        fs,
        changed_positions(rs),
    ));
    data.preview_files = preview;
    data.status_message = preview_status_text(
        idx.len(),
        dups,
        renumbered,
        data.auto_number_on_conflict,
    );
}

pub proof fn lemma_no_changes(rs: Seq<RecordView>)
    requires
        forall|i: int| 0 <= i < rs.len() ==> !is_changed(#[trigger] rs[i]),
    ensures
        changed_positions(rs).len() == 0,
    decreases rs.len(),
{
    if rs.len() > 0 {
        assert(!is_changed(rs[rs.len() - 1]));
        lemma_no_changes(rs.drop_last());
    }
}

/// With an empty search pattern every record keeps its base name and the
/// preview is empty.
pub proof fn lemma_empty_search_is_identity(
    before: &AppState,
    after: &AppState,
    listing: Option<Seq<Seq<char>>>,
)
    requires
        before.search_pattern@.len() == 0,
        previewed(before, after, listing),
    ensures
        forall|i: int|
            0 <= i < after.files@.len() ==> (#[trigger] after.files@[i]).new_name@ == basename(
                after.files@[i].original_path@,
            ),
        after.preview_files@.len() == 0,
{
    if let Some(l) = listing {
        let s = before.inputs();
        let rs = retitled_scan(l, s);
        let fold_case = s.fold_case;
        assert forall|i: int| 0 <= i < rs.len() implies !is_changed(#[trigger] rs[i]) by {}
        lemma_no_changes(rs);
        assert(final_records(rs, s.auto_number, fold_case) == rs);
        assert forall|i: int| 0 <= i < after.files@.len() implies (
        #[trigger] after.files@[i]).new_name@ == basename(after.files@[i].original_path@) by {
            assert(records(after.files@)[i] == after.files@[i]@);
        }
        assert(records(after.preview_files@).len() == 0);
    }
}

/// Previewing twice with the same settings and the same listing gives the
/// same records, the same preview and the same status line.
pub proof fn lemma_preview_is_repeatable(
    first: &AppState,
    second: &AppState,
    third: &AppState,
    listing: Option<Seq<Seq<char>>>,
)
    requires
        previewed(first, second, listing),
        previewed(second, third, listing),
    ensures
        records(third.files@) == records(second.files@),
        records(third.preview_files@) == records(second.preview_files@),
        third.status_message@ == second.status_message@,
{
}

} // verus!
