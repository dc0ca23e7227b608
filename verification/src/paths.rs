//! Where the files of an index are. Paths are byte strings, as on POSIX.

use vstd::prelude::*;
use crate::external_sort::RunId;
use crate::layout::{INDEX_SUBDIRNAME, SCRATCH_DIRNAME};
use crate::lookup::PATH_SEPARATOR;
use crate::text;
use crate::text::append_padded_decimal;

verus! {

/// The path of `component` below `base`.
pub open spec fn path_below(base: Seq<u8>, component: Seq<u8>) -> Seq<u8> {
    if base.len() == 0 || base.last() == PATH_SEPARATOR {
        base + component
    } else {
        base.push(PATH_SEPARATOR) + component
    }
}

/// The directory of the index below the temporary root.
pub open spec fn index_directory(temp_root: Seq<u8>) -> Seq<u8> {
    path_below(temp_root, vstd::utf8::encode_utf8(INDEX_SUBDIRNAME@))
}

/// The scratch directory of the index.
pub open spec fn scratch_directory(temp_root: Seq<u8>) -> Seq<u8> {
    path_below(index_directory(temp_root), vstd::utf8::encode_utf8(SCRATCH_DIRNAME@))
}

/// Every path of an index lies below the directory of the index, and that
/// below the temporary root.
pub proof fn index_paths_stay_below_root(temp_root: Seq<u8>, name: Seq<u8>)
    ensures
        temp_root.is_prefix_of(index_directory(temp_root)),
        index_directory(temp_root).is_prefix_of(path_below(index_directory(temp_root), name)),
        index_directory(temp_root).is_prefix_of(scratch_directory(temp_root)),
        scratch_directory(temp_root).is_prefix_of(path_below(scratch_directory(temp_root), name)),
{
}

/// Computes [`path_below`].
fn join_path(base: &[u8], component: &str) -> (path: Vec<u8>)
    ensures
        path@ == path_below(base@, vstd::utf8::encode_utf8(component@)),
{
    let mut path: Vec<u8> = Vec::new();
    path.extend_from_slice(base);
    if base.len() > 0 && base[base.len() - 1] != PATH_SEPARATOR {
        path.push(PATH_SEPARATOR);
    }
    path.extend_from_slice(component.as_bytes());
    assert(path@ =~= path_below(base@, vstd::utf8::encode_utf8(component@)));
    path
}

/// The path of the index directory.
pub fn build_index_directory_path(temp_root_dir: &[u8]) -> (path: Vec<u8>)
    ensures
        path@ == index_directory(temp_root_dir@),
{
    join_path(temp_root_dir, INDEX_SUBDIRNAME)
}

/// The path of the scratch directory.
pub fn build_scratch_directory_path(temp_root_dir: &[u8]) -> (path: Vec<u8>)
    ensures
        path@ == scratch_directory(temp_root_dir@),
{
    let index_directory_path: Vec<u8> = build_index_directory_path(temp_root_dir);
    join_path(&index_directory_path, SCRATCH_DIRNAME)
}

/// The path of a file of the index.
pub fn build_index_file_path(temp_root_dir: &[u8], index_file_basename: &str) -> (path: Vec<u8>)
    ensures
        path@ == path_below(index_directory(temp_root_dir@), vstd::utf8::encode_utf8(index_file_basename@)),
{
    let index_directory_path: Vec<u8> = build_index_directory_path(temp_root_dir);
    join_path(&index_directory_path, index_file_basename)
}

/// The path of a scratch file.
pub fn build_scratch_path(temp_root_dir: &[u8], scratch_basename: &str) -> (path: Vec<u8>)
    ensures
        path@ == path_below(scratch_directory(temp_root_dir@), vstd::utf8::encode_utf8(scratch_basename@)),
{
    let scratch_directory_path: Vec<u8> = build_scratch_directory_path(temp_root_dir);
    join_path(&scratch_directory_path, scratch_basename)
}

/// The name of the file that holds a run.
pub open spec fn run_file_name(run: RunId) -> Seq<char> {
    match run {
        RunId::Initial(index) => "run_"@ + text::padded_decimal(index as nat, 8) + ".bin"@,
        RunId::Merged { round, group } => "merge_r"@ + text::padded_decimal(round as nat, 4) + "_g"@
            + text::padded_decimal(group as nat, 10) + ".bin"@,
    }
}

/// The name of the file that holds the initial run with this index.
pub fn format_run_filename(run_index: u64) -> (name: String)
    ensures
        name@ == run_file_name(RunId::Initial(run_index)),
{
    let mut name: String = String::from_str("run_");
    append_padded_decimal(&mut name, run_index, 8);
    name.append(".bin");
    name
}

/// The name of the file that holds the merged run of this round and group.
pub fn format_merge_filename(round: u64, group: u64) -> (name: String)
    ensures
        name@ == run_file_name(RunId::Merged { round, group }),
{
    let mut name: String = String::from_str("merge_r");
    append_padded_decimal(&mut name, round, 4);
    name.append("_g");
    append_padded_decimal(&mut name, group, 10);
    name.append(".bin");
    name
}

/// The name of the file that holds `run`.
pub fn format_run_name(run: RunId) -> (name: String)
    ensures
        name@ == run_file_name(run),
{
    match run {
        RunId::Initial(index) => format_run_filename(index),
        RunId::Merged { round, group } => format_merge_filename(round, group),
    }
}

/// Two strings of digits, each followed by text that does not start with a
/// digit, are equal where the whole is.
proof fn lemma_digits_end_where_text_starts(
    a: Seq<char>,
    b: Seq<char>,
    rest_a: Seq<char>,
    rest_b: Seq<char>,
)
    requires
        a + rest_a == b + rest_b,
        forall|i: int| 0 <= i < a.len() ==> text::is_digit(#[trigger] a[i]),
        forall|i: int| 0 <= i < b.len() ==> text::is_digit(#[trigger] b[i]),
        rest_a.len() > 0 && !text::is_digit(rest_a[0]),
        rest_b.len() > 0 && !text::is_digit(rest_b[0]),
    ensures
        a == b,
        rest_a == rest_b,
{
    let whole = a + rest_a;
    if a.len() < b.len() {
        assert(whole[a.len() as int] == rest_a[0]);
        assert(whole[a.len() as int] == b[a.len() as int]);
    }
    if b.len() < a.len() {
        assert((b + rest_b)[b.len() as int] == rest_b[0]);
        assert(whole[b.len() as int] == a[b.len() as int]);
    }
    assert(a =~= whole.take(a.len() as int));
    assert(b =~= (b + rest_b).take(b.len() as int));
    assert(rest_a =~= whole.skip(a.len() as int));
    assert(rest_b =~= (b + rest_b).skip(b.len() as int));
}

/// Different runs are held in files with different names.
pub proof fn run_file_names_are_distinct(a: RunId, b: RunId)
    requires
        run_file_name(a) == run_file_name(b),
    ensures
        a == b,
{
    reveal_strlit("run_");
    reveal_strlit("merge_r");
    reveal_strlit("_g");
    reveal_strlit(".bin");
    let x = run_file_name(a);
    let y = run_file_name(b);
    assert(x[0] == y[0]);
    match (a, b) {
        (RunId::Initial(i), RunId::Initial(j)) => {
            let di = text::padded_decimal(i as nat, 8);
            let dj = text::padded_decimal(j as nat, 8);
            text::padded_decimal_round_trips(i as nat, 8);
            text::padded_decimal_round_trips(j as nat, 8);
            assert(x.skip(4) =~= di + ".bin"@);
            assert(y.skip(4) =~= dj + ".bin"@);
            lemma_digits_end_where_text_starts(di, dj, ".bin"@, ".bin"@);
        },
        (
            RunId::Merged { round: ra, group: ga },
            RunId::Merged { round: rb, group: gb },
        ) => {
            let da = text::padded_decimal(ra as nat, 4);
            let db = text::padded_decimal(rb as nat, 4);
            let ea = text::padded_decimal(ga as nat, 10);
            let eb = text::padded_decimal(gb as nat, 10);
            text::padded_decimal_round_trips(ra as nat, 4);
            text::padded_decimal_round_trips(rb as nat, 4);
            text::padded_decimal_round_trips(ga as nat, 10);
            text::padded_decimal_round_trips(gb as nat, 10);
            let ta = "_g"@ + ea + ".bin"@;
            let tb = "_g"@ + eb + ".bin"@;
            assert(x.skip(7) =~= da + ta);
            assert(y.skip(7) =~= db + tb);
            lemma_digits_end_where_text_starts(da, db, ta, tb);
            assert(ta.skip(2) =~= ea + ".bin"@);
            assert(tb.skip(2) =~= eb + ".bin"@);
            lemma_digits_end_where_text_starts(ea, eb, ".bin"@, ".bin"@);
        },
        (RunId::Initial(_), RunId::Merged { round: _, group: _ }) => {
            assert(x[0] == 'r' && y[0] == 'm');
        },
        (RunId::Merged { round: _, group: _ }, RunId::Initial(_)) => {
            assert(x[0] == 'm' && y[0] == 'r');
        },
    }
}

/// A path below another starts with all of that, ends with all of the component,
/// and has a separator between the two, one that was there or one of its own.
pub proof fn path_below_is_base_separator_and_component(base: Seq<u8>, component: Seq<u8>)
    requires
        base.len() > 0,
    ensures
        ({
            let path = path_below(base, component);
            let start = path.len() - component.len();
            &&& path.len() == base.len() + component.len() + if base[base.len() - 1] == 0x2f {
                0int
            } else {
                1int
            }
            &&& forall|i: int| 0 <= i < base.len() ==> path[i] == #[trigger] base[i]
            &&& forall|i: int|
                0 <= i < component.len() ==> path[start + i] == #[trigger] component[i]
            &&& path[start - 1] == 0x2f
        }),
{
}

/// The names of runs tell their numbers, in digits behind zeros up to eight, four
/// and ten places.
pub proof fn run_file_names_tell_their_numbers(index: u64, round: u64, group: u64)
    requires
        index < 100_000_000,
        round < 10_000,
        group < 10_000_000_000,
    ensures
        ({
            let name = run_file_name(RunId::Initial(index));
            &&& name.len() == 16
            &&& name.take(4) == "run_"@
            &&& text::decimal_value(name.subrange(4, 12)) == index
            &&& name.skip(12) == ".bin"@
        }),
        ({
            let name = run_file_name(RunId::Merged { round, group });
            &&& name.len() == 27
            &&& name.take(7) == "merge_r"@
            &&& text::decimal_value(name.subrange(7, 11)) == round
            &&& name.subrange(11, 13) == "_g"@
            &&& text::decimal_value(name.subrange(13, 23)) == group
            &&& name.skip(23) == ".bin"@
        }),
{
    reveal_strlit("run_");
    reveal_strlit("merge_r");
    reveal_strlit("_g");
    reveal_strlit(".bin");
    assert(text::power_of_ten(10) == 10_000_000_000) by {
        reveal_with_fuel(text::power_of_ten, 11);
    }
    assert(text::power_of_ten(8) == 100_000_000) by {
        reveal_with_fuel(text::power_of_ten, 9);
    }
    assert(text::power_of_ten(4) == 10_000) by {
        reveal_with_fuel(text::power_of_ten, 5);
    }
    let i = text::padded_decimal(index as nat, 8);
    let r = text::padded_decimal(round as nat, 4);
    let g = text::padded_decimal(group as nat, 10);
    text::lemma_padded_len(index as nat, 8);
    text::lemma_padded_len(round as nat, 4);
    text::lemma_padded_len(group as nat, 10);
    text::padded_decimal_round_trips(index as nat, 8);
    text::padded_decimal_round_trips(round as nat, 4);
    text::padded_decimal_round_trips(group as nat, 10);
    let a = run_file_name(RunId::Initial(index));
    assert(a.take(4) =~= "run_"@);
    assert(a.subrange(4, 12) =~= i);
    assert(a.skip(12) =~= ".bin"@);
    let b = run_file_name(RunId::Merged { round, group });
    assert(b.take(7) =~= "merge_r"@);
    assert(b.subrange(7, 11) =~= r);
    assert(b.subrange(11, 13) =~= "_g"@);
    assert(b.subrange(13, 23) =~= g);
    assert(b.skip(23) =~= ".bin"@);
}

/// Where an index is: below the temporary root in a directory `chrono_index`, its
/// scratch files below that in a directory `scratch`, each by its whole name.
pub proof fn index_is_below_root(
    root: &[u8],
    name: &'static str,
    index_path: Vec<u8>,
    file_path: Vec<u8>,
    scratch_path: Vec<u8>,
)
    requires
        root@.len() > 0,
        call_ensures(build_index_directory_path, (root,), index_path),
        call_ensures(build_index_file_path, (root, name), file_path),
        call_ensures(build_scratch_path, (root, name), scratch_path),
    ensures
        index_path@ == path_below(root@, vstd::utf8::encode_utf8("chrono_index"@)),
        file_path@ == path_below(index_path@, vstd::utf8::encode_utf8(name@)),
        scratch_path@ == path_below(
            path_below(index_path@, vstd::utf8::encode_utf8("scratch"@)),
            vstd::utf8::encode_utf8(name@),
        ),
{
}

} // verus!
