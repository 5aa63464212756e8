//! Checking the built stylesheets.
use vstd::prelude::*;
use vstd::string::*;
use vstd::utf8::*;
use crate::allowlist::AllowedPropertySet;
use crate::declarations::{
    declaration_views, declared_properties, extract_declarations, names_of,
    stylesheet_declarations, DeclarationView, RawDeclaration,
};
use crate::normalize::{normalize_css, normalize_property};
use crate::property_set::{
    ascending_by, bytes_less, in_order, lemma_ascending_by_unique, lemma_ascending_unique,
    lemma_in_order, lemma_lex_irreflexive, lemma_lex_total, lemma_lex_transitive, lex_less,
    strictly_ascending, PropertySet,
};
use crate::source::SourceFile;
use crate::strings::{lemma_push_to_set, lemma_run_end, run_end, str_equal};
use crate::violation::{
    check_property, finding, violation_views, Violation, ViolationKind, ViolationView,
};

verus! {

/// The keys of the entries that an order lists.
pub open spec fn keys_in_order(order: Seq<int>, keys: Seq<Seq<u8>>) -> Seq<Seq<u8>> {
    order.map_values(|j: int| keys[j])
}

/// The place at which an entry with key `key` goes into an order: behind
/// the leading entries whose keys do not come after it.
pub open spec fn insert_position(order: Seq<int>, keys: Seq<Seq<u8>>, key: Seq<u8>) -> int {
    run_end(keys_in_order(order, keys), 0, |k: Seq<u8>| !lex_less(key, k))
}

/// The order in which entries with the given keys are walked: by ascending
/// key, entries with the same key in the order in which they were given.
/// It is built by putting one entry after the other in its place.
pub open spec fn sort_order(keys: Seq<Seq<u8>>) -> Seq<int>
    decreases keys.len(),
{
    if keys.len() == 0 {
        Seq::empty()
    } else {
        let before = sort_order(keys.drop_last());
        let at = insert_position(before, keys.drop_last(), keys.last());
        if 0 <= at <= before.len() {
            before.insert(at, keys.len() - 1)
        } else {
            before
        }
    }
}

/// An order lists every entry once, and no key in it comes before the key
/// of an earlier entry.
pub proof fn lemma_sort_order(keys: Seq<Seq<u8>>)
    ensures
        sort_order(keys).len() == keys.len(),
        forall|j: int| 0 <= j < keys.len() ==> sort_order(keys).contains(j),
        forall|a: int| 0 <= a < keys.len() ==> 0 <= #[trigger] sort_order(keys)[a] < keys.len(),
        forall|a: int, b: int|
            0 <= a < b < keys.len() ==> #[trigger] sort_order(keys)[a] != #[trigger] sort_order(
                keys,
            )[b],
        forall|a: int, b: int|
            0 <= a < b < keys.len() ==> !lex_less(
                keys[#[trigger] sort_order(keys)[b]],
                keys[#[trigger] sort_order(keys)[a]],
            ),
    decreases keys.len(),
{
    if keys.len() > 0 {
        let head = keys.drop_last();
        lemma_sort_order(head);
        let before = sort_order(head);
        let listed = keys_in_order(before, head);
        let key = keys.last();
        let p = |k: Seq<u8>| !lex_less(key, k);
        lemma_run_end(listed, 0, p);
        let at = insert_position(before, head, key);
        let after = sort_order(keys);
        let n = keys.len() - 1;
        assert(after == before.insert(at, n));
        assert forall|j: int| 0 <= j < keys.len() implies after.contains(j) by {
            if j == n {
                assert(after[at] == j);
            } else {
                assert(before.contains(j));
                let k = choose|k: int| 0 <= k < before.len() && before[k] == j;
                if k < at {
                    assert(after[k] == j);
                } else {
                    assert(after[k + 1] == j);
                }
            }
        }
        assert forall|a: int| 0 <= a < keys.len() implies 0 <= #[trigger] after[a]
            < keys.len() by {
            if a < at {
                assert(after[a] == before[a]);
            } else if a > at {
                assert(after[a] == before[a - 1]);
            }
        }
        assert forall|a: int, b: int| 0 <= a < b < keys.len() implies #[trigger] after[a]
            != #[trigger] after[b] by {
            let x = if a < at {
                a
            } else {
                a - 1
            };
            let y = if b < at {
                b
            } else {
                b - 1
            };
            if a != at && b != at {
                assert(after[a] == before[x] && after[b] == before[y]);
            } else if a == at {
                assert(after[b] == before[y]);
            } else {
                assert(after[a] == before[x]);
            }
        }
        assert forall|a: int, b: int| 0 <= a < b < keys.len() implies !lex_less(
            keys[#[trigger] after[b]],
            keys[#[trigger] after[a]],
        ) by {
            let x = if a < at {
                a
            } else {
                a - 1
            };
            let y = if b < at {
                b
            } else {
                b - 1
            };
            if a != at && b != at {
                assert(after[a] == before[x] && after[b] == before[y]);
                assert(keys[before[x]] == head[before[x]]);
                assert(keys[before[y]] == head[before[y]]);
            } else if a == at {
                // the new entry stands before one whose key comes after its own
                assert(after[a] == n);
                assert(after[b] == before[y]);
                assert(keys[before[y]] == head[before[y]]);
                assert(keys[before[at]] == head[before[at]]);
                assert(listed[at] == head[before[at]]);
                assert(listed[y] == head[before[y]]);
                assert(!p(listed[at]));
                assert(lex_less(key, listed[at]));
                if lex_less(listed[y], key) {
                    lemma_lex_transitive(listed[y], key, listed[at]);
                    if y == at {
                        lemma_lex_irreflexive(listed[at]);
                    } else {
                        assert(!lex_less(head[before[y]], head[before[at]]));
                    }
                }
            } else {
                assert(after[b] == n);
                // the new entry stands behind entries whose keys do not come after its own
                assert(after[a] == before[x]);
                assert(listed[x] == head[before[x]]);
                assert(keys[before[x]] == head[before[x]]);
                assert(p(listed[x]));
            }
        }
    }
}

/// The keys by which files are ordered: their paths as bytes.
pub open spec fn path_keys(files: Seq<SourceFile>) -> Seq<Seq<u8>> {
    files.map_values(|f: SourceFile| encode_utf8(f.path@))
}

/// The order in which the files are walked: by ascending path.
pub fn files_by_path(files: &Vec<SourceFile>) -> (order: Vec<usize>)
    ensures
        order@.map_values(|j: usize| j as int) == sort_order(path_keys(files@)),
        order.len() == files.len(),
        forall|k: int| 0 <= k < order.len() ==> (#[trigger] order[k]) < files.len(),
{
    let ghost keys = path_keys(files@);
    let mut order: Vec<usize> = Vec::new();
    let mut i: usize = 0;
    proof {
        assert(keys.take(0) =~= Seq::<Seq<u8>>::empty());
        assert(order@.map_values(|j: usize| j as int) =~= Seq::<int>::empty());
    }
    while i < files.len()
        invariant
            i <= files.len(),
            keys == path_keys(files@),
            order.len() == i,
            forall|k: int| 0 <= k < order.len() ==> (#[trigger] order[k]) < i,
            order@.map_values(|j: usize| j as int) == sort_order(keys.take(i as int)),
        decreases files.len() - i,
    {
        let ghost before = order@.map_values(|j: usize| j as int);
        let ghost head = keys.take(i as int);
        let ghost listed = keys_in_order(before, head);
        let ghost p = |k: Seq<u8>| !lex_less(keys[i as int], k);
        let key = files[i].path.as_str().as_bytes();
        proof {
            assert(keys.take(i + 1).drop_last() =~= head);
            assert(keys.take(i + 1).last() == keys[i as int]);
            assert(key@ == keys[i as int]);
            lemma_run_end(listed, 0, p);
        }
        let mut at: usize = 0;
        while at < order.len() && !bytes_less(key, files[order[at]].path.as_str().as_bytes())
            invariant
                at <= order.len(),
                order.len() == i,
                i < files.len(),
                keys == path_keys(files@),
                key@ == keys[i as int],
                head == keys.take(i as int),
                before == order@.map_values(|j: usize| j as int),
                listed == keys_in_order(before, head),
                p == |k: Seq<u8>| !lex_less(keys[i as int], k),
                forall|k: int| 0 <= k < order.len() ==> (#[trigger] order[k]) < i,
                run_end(listed, at as int, p) == run_end(listed, 0, p),
            decreases order.len() - at,
        {
            proof {
                assert(listed[at as int] == head[before[at as int]]);
                assert(before[at as int] == order[at as int] as int);
                assert(head[order[at as int] as int] == keys[order[at as int] as int]);
            }
            at += 1;
        }
        proof {
            if at < order.len() {
                assert(listed[at as int] == head[before[at as int]]);
                assert(before[at as int] == order[at as int] as int);
                assert(head[order[at as int] as int] == keys[order[at as int] as int]);
            }
            assert(run_end(listed, at as int, p) == at);
        }
        order.insert(at, i);
        proof {
            assert(order@.map_values(|j: usize| j as int) =~= before.insert(at as int, i as int));
            assert forall|k: int| 0 <= k < order.len() implies (#[trigger] order[k]) < i + 1 by {
                if k < at {
                    assert(order[k] as int == before[k]);
                } else if k > at {
                    assert(order[k] as int == before[k - 1]);
                }
            }
        }
        i += 1;
    }
    proof {
        assert(keys.take(files.len() as int) =~= keys);
    }
    order
}

/// The offset of the first declaration of `name`.
pub open spec fn first_offset(decls: Seq<DeclarationView>, name: Seq<char>) -> int
    decreases decls.len(),
{
    if decls.len() == 0 {
        0
    } else if decls[0].property == name {
        decls[0].source_offset
    } else {
        first_offset(decls.skip(1), name)
    }
}

/// The names of a set in ascending order.
pub open spec fn ascending(names: Set<Seq<char>>) -> Seq<Seq<char>> {
    choose|s: Seq<Seq<char>>| strictly_ascending(s) && s.to_set() == names
}

/// The violations that a list of declared names gives, name by name: each
/// unsupported property once, at the place of its first declaration.
pub open spec fn name_findings(
    file: Seq<char>,
    bytes: Seq<u8>,
    names: Seq<Seq<char>>,
    decls: Seq<DeclarationView>,
    allow: Set<Seq<char>>,
) -> Seq<ViolationView>
    decreases names.len(),
{
    if names.len() == 0 {
        Seq::empty()
    } else {
        name_findings(file, bytes, names.drop_last(), decls, allow) + finding(
            file,
            bytes,
            first_offset(decls, names.last()),
            names.last(),
            normalize_css(names.last()),
            ViolationKind::DistCss,
            allow,
        )
    }
}

/// The violations of one stylesheet: its unsupported properties in
/// ascending order.
pub open spec fn stylesheet_findings(file: Seq<char>, text: Seq<char>, allow: Set<Seq<char>>) -> Seq<
    ViolationView,
> {
    let bytes = encode_utf8(text);
    name_findings(
        file,
        bytes,
        ascending(declared_properties(bytes)),
        stylesheet_declarations(bytes),
        allow,
    )
}

fn find_first_offset(decls: &Vec<RawDeclaration>, name: &str) -> (offset: usize)
    ensures
        offset == first_offset(declaration_views(decls@), name@),
{
    let ghost all = declaration_views(decls@);
    let mut i: usize = 0;
    proof {
        assert(all.skip(0) =~= all);
    }
    while i < decls.len()
        invariant
            i <= decls.len(),
            all == declaration_views(decls@),
            first_offset(all.skip(i as int), name@) == first_offset(all, name@),
        decreases decls.len() - i,
    {
        proof {
            assert(all.skip(i as int).skip(1) =~= all.skip(i + 1));
            assert(all.skip(i as int)[0] == decls[i as int]@);
        }
        if str_equal(decls[i].property.as_str(), name) {
            return decls[i].source_offset;
        }
        i += 1;
    }
    0
}

/// Checks one built stylesheet against the list of supported properties.
pub fn stylesheet_violations(file: &str, css: &str, supported: &AllowedPropertySet, out: &mut Vec<
    Violation,
>)
    ensures
        violation_views(final(out)@) == violation_views(old(out)@) + stylesheet_findings(
            file@,
            css@,
            supported@,
        ),
{
    let ghost bytes = css.spec_bytes();
    let ghost before = violation_views(out@);
    let decls = extract_declarations(css);
    let mut props = PropertySet::new();
    let mut k: usize = 0;
    let ghost declared = names_of(declaration_views(decls@));
    proof {
        assert(declared.take(0).to_set() =~= Set::<Seq<char>>::empty());
    }
    while k < decls.len()
        invariant
            k <= decls.len(),
            declared == names_of(declaration_views(decls@)),
            props.wf(),
            props@ == declared.take(k as int).to_set(),
        decreases decls.len() - k,
    {
        props.insert(decls[k].property.clone());
        proof {
            assert(declared.take(k + 1) =~= declared.take(k as int).push(declared[k as int]));
            lemma_push_to_set(declared.take(k as int), declared[k as int]);
        }
        k += 1;
    }
    let ghost names = props.names();
    proof {
        assert(declared.take(decls.len() as int) =~= declared);
        assert(props@ == declared_properties(bytes));
        let chosen = ascending(declared_properties(bytes));
        assert(strictly_ascending(names) && names.to_set() == declared_properties(bytes));
        lemma_ascending_unique(names, chosen);
        assert(names.take(0) =~= Seq::<Seq<char>>::empty());
        assert(before + name_findings(
            file@,
            bytes,
            names.take(0),
            declaration_views(decls@),
            supported@,
        ) =~= before);
    }
    let mut i: usize = 0;
    let count = props.len();
    while i < count
        invariant
            i <= count,
            count == names.len(),
            bytes == css.spec_bytes(),
            names == props.names(),
            declaration_views(decls@) == stylesheet_declarations(bytes),
            before == violation_views(old(out)@),
            violation_views(out@) == before + name_findings(
                file@,
                bytes,
                names.take(i as int),
                declaration_views(decls@),
                supported@,
            ),
        decreases count - i,
    {
        proof {
            assert(names.take(i + 1).drop_last() =~= names.take(i as int));
            assert(names.take(i + 1).last() == names[i as int]);
        }
        let name = props.name(i);
        let offset = find_first_offset(&decls, name);
        let normalized = normalize_property(name);
        let ghost so_far = violation_views(out@);
        check_property(
            file,
            css,
            offset,
            name.to_owned(),
            normalized,
            ViolationKind::DistCss,
            supported,
            out,
        );
        proof {
            let step = finding(
                file@,
                bytes,
                offset as int,
                names[i as int],
                normalize_css(names[i as int]),
                ViolationKind::DistCss,
                supported@,
            );
            assert(so_far + step =~= before + (name_findings(
                file@,
                bytes,
                names.take(i as int),
                declaration_views(decls@),
                supported@,
            ) + step));
        }
        i += 1;
    }
    proof {
        assert(names.take(count as int) =~= names);
    }
}

/// The violations of the stylesheets that an order lists, stylesheet by
/// stylesheet.
pub open spec fn ordered_findings(files: Seq<SourceFile>, order: Seq<int>, allow: Set<Seq<char>>) -> Seq<
    ViolationView,
>
    decreases order.len(),
{
    if order.len() == 0 {
        Seq::empty()
    } else {
        ordered_findings(files, order.drop_last(), allow) + stylesheet_findings(
            files[order.last()].path@,
            files[order.last()].text@,
            allow,
        )
    }
}

/// The violations of the built stylesheets: the stylesheets by ascending
/// path, and in each its unsupported properties in ascending order.
pub open spec fn dist_findings(files: Seq<SourceFile>, allow: Set<Seq<char>>) -> Seq<ViolationView> {
    ordered_findings(files, sort_order(path_keys(files)), allow)
}

/// Checks the built stylesheets against the list of supported properties.
/// Each unsupported property is reported once for each stylesheet that
/// declares it, at the place of its first declaration there. The report
/// stands file by file, the files by ascending path and the properties of
/// a file in ascending order. It does not depend on the order in which the
/// files are given, as long as no two of them have the same path.
pub fn check_dist_css(files: &Vec<SourceFile>, supported: &AllowedPropertySet) -> (found: Vec<
    Violation,
>)
    ensures
        violation_views(found@) == dist_findings(files@, supported@),
        ascending_by_file(violation_views(found@)),
        distinct_paths(files@) ==> ascending_by_property(violation_views(found@)),
{
    proof {
        lemma_dist_findings_in_order(files@, supported@);
    }
    let order = files_by_path(files);
    let ghost all = order@.map_values(|j: usize| j as int);
    let mut out: Vec<Violation> = Vec::new();
    let mut i: usize = 0;
    proof {
        assert(all.take(0) =~= Seq::<int>::empty());
        assert(violation_views(out@) =~= Seq::<ViolationView>::empty());
    }
    while i < order.len()
        invariant
            i <= order.len(),
            all == order@.map_values(|j: usize| j as int),
            forall|k: int| 0 <= k < order.len() ==> (#[trigger] order[k]) < files.len(),
            violation_views(out@) == ordered_findings(files@, all.take(i as int), supported@),
        decreases order.len() - i,
    {
        proof {
            assert(all.take(i + 1).drop_last() =~= all.take(i as int));
            assert(all.take(i + 1).last() == order[i as int] as int);
        }
        let file = &files[order[i]];
        stylesheet_violations(file.path.as_str(), file.text.as_str(), supported, &mut out);
        i += 1;
    }
    proof {
        assert(all.take(order.len() as int) =~= all);
    }
    out
}

/// The files in the order in which they are checked.
pub open spec fn files_in_order(files: Seq<SourceFile>) -> Seq<SourceFile> {
    sort_order(path_keys(files)).map_values(|j: int| files[j])
}

/// The violations of a list of stylesheets, stylesheet by stylesheet.
pub open spec fn listed_findings(files: Seq<SourceFile>, allow: Set<Seq<char>>) -> Seq<ViolationView>
    decreases files.len(),
{
    if files.len() == 0 {
        Seq::empty()
    } else {
        listed_findings(files.drop_last(), allow) + stylesheet_findings(
            files.last().path@,
            files.last().text@,
            allow,
        )
    }
}

proof fn lemma_ordered_findings(files: Seq<SourceFile>, order: Seq<int>, allow: Set<Seq<char>>)
    ensures
        ordered_findings(files, order, allow) == listed_findings(
            order.map_values(|j: int| files[j]),
            allow,
        ),
    decreases order.len(),
{
    let listed = order.map_values(|j: int| files[j]);
    if order.len() > 0 {
        lemma_ordered_findings(files, order.drop_last(), allow);
        assert(listed.drop_last() =~= order.drop_last().map_values(|j: int| files[j]));
    }
}

/// Whether no two of the files have the same path.
pub open spec fn distinct_paths(files: Seq<SourceFile>) -> bool {
    forall|i: int, j: int|
        0 <= i < j < files.len() ==> (#[trigger] files[i]).path@ != (#[trigger] files[j]).path@
}

proof fn lemma_files_in_order(files: Seq<SourceFile>)
    requires
        distinct_paths(files),
    ensures
        ascending_by(files_in_order(files), |f: SourceFile| encode_utf8(f.path@)),
        files_in_order(files).to_set() == files.to_set(),
{
    let keys = path_keys(files);
    let order = sort_order(keys);
    let sorted = files_in_order(files);
    let key = |f: SourceFile| encode_utf8(f.path@);
    lemma_sort_order(keys);
    assert forall|i: int, j: int| 0 <= i < j < sorted.len() implies lex_less(
        key(#[trigger] sorted[i]),
        key(#[trigger] sorted[j]),
    ) by {
        let x = order[i];
        let y = order[j];
        assert(x != y);
        assert(!lex_less(keys[y], keys[x]));
        lemma_lex_total(keys[x], keys[y]);
        if keys[x] == keys[y] {
            encode_utf8_decode_utf8(files[x].path@);
            encode_utf8_decode_utf8(files[y].path@);
            if x < y {
                assert(files[x].path@ != files[y].path@);
            } else {
                assert(files[y].path@ != files[x].path@);
            }
        }
    }
    assert forall|f: SourceFile| sorted.to_set().contains(f) <==> files.to_set().contains(f) by {
        if sorted.to_set().contains(f) {
            let k = choose|k: int| 0 <= k < sorted.len() && sorted[k] == f;
            assert(files[order[k]] == f);
        }
        if files.to_set().contains(f) {
            let j = choose|j: int| 0 <= j < files.len() && files[j] == f;
            assert(order.contains(j));
            let k = choose|k: int| 0 <= k < order.len() && order[k] == j;
            assert(sorted[k] == f);
        }
    }
    assert(sorted.to_set() =~= files.to_set());
}

/// The report on the stylesheets does not depend on the order in which
/// they are given: two lists of the same files, each without two files of
/// one path, give the same violations in the same order.
pub proof fn lemma_dist_findings_ignore_input_order(
    first: Seq<SourceFile>,
    second: Seq<SourceFile>,
    allow: Set<Seq<char>>,
)
    requires
        distinct_paths(first),
        distinct_paths(second),
        first.to_set() == second.to_set(),
    ensures
        dist_findings(first, allow) == dist_findings(second, allow),
{
    lemma_files_in_order(first);
    lemma_files_in_order(second);
    lemma_ascending_by_unique(
        files_in_order(first),
        files_in_order(second),
        |f: SourceFile| encode_utf8(f.path@),
    );
    lemma_ordered_findings(first, sort_order(path_keys(first)), allow);
    lemma_ordered_findings(second, sort_order(path_keys(second)), allow);
}

/// The names of a set that a list of names makes stand in `ascending` in
/// strictly ascending order, each once, and no other name stands there.
pub proof fn lemma_ascending(names: Seq<Seq<char>>)
    ensures
        strictly_ascending(ascending(names.to_set())),
        ascending(names.to_set()).to_set() == names.to_set(),
        ascending(names.to_set()) == in_order(names),
{
    lemma_in_order(names);
    let witness = in_order(names);
    assert(strictly_ascending(witness) && witness.to_set() == names.to_set());
    lemma_ascending_unique(ascending(names.to_set()), witness);
}

/// Whether the violations stand file by file, the files by ascending path.
pub open spec fn ascending_by_file(v: Seq<ViolationView>) -> bool {
    forall|i: int, j: int|
        0 <= i < j < v.len() ==> !lex_less(
            encode_utf8((#[trigger] v[j]).file),
            encode_utf8((#[trigger] v[i]).file),
        )
}

/// Whether the violations of one file stand by ascending property, so that
/// no property of a file stands twice.
pub open spec fn ascending_by_property(v: Seq<ViolationView>) -> bool {
    forall|i: int, j: int|
        0 <= i < j < v.len() && (#[trigger] v[i]).file == (#[trigger] v[j]).file ==> lex_less(
            encode_utf8(v[i].property),
            encode_utf8(v[j].property),
        )
}

proof fn lemma_name_findings_in_order(
    file: Seq<char>,
    bytes: Seq<u8>,
    names: Seq<Seq<char>>,
    decls: Seq<DeclarationView>,
    allow: Set<Seq<char>>,
)
    requires
        strictly_ascending(names),
    ensures
        forall|k: int|
            0 <= k < name_findings(file, bytes, names, decls, allow).len() ==> {
                let v = #[trigger] name_findings(file, bytes, names, decls, allow)[k];
                v.file == file && v.kind == ViolationKind::DistCss && names.contains(v.property)
                    && v.normalized == normalize_css(v.property)
            },
        forall|i: int, j: int|
            0 <= i < j < name_findings(file, bytes, names, decls, allow).len() ==> lex_less(
                encode_utf8((#[trigger] name_findings(file, bytes, names, decls, allow)[i]).property),
                encode_utf8((#[trigger] name_findings(file, bytes, names, decls, allow)[j]).property),
            ),
    decreases names.len(),
{
    let all = name_findings(file, bytes, names, decls, allow);
    if names.len() > 0 {
        let head = names.drop_last();
        let last = names.last();
        assert forall|i: int, j: int| 0 <= i < j < head.len() implies lex_less(
            encode_utf8(#[trigger] head[i]),
            encode_utf8(#[trigger] head[j]),
        ) by {
            assert(head[i] == names[i] && head[j] == names[j]);
        }
        lemma_name_findings_in_order(file, bytes, head, decls, allow);
        let before = name_findings(file, bytes, head, decls, allow);
        let step = finding(
            file,
            bytes,
            first_offset(decls, last),
            last,
            normalize_css(last),
            ViolationKind::DistCss,
            allow,
        );
        assert(all == before + step);
        assert forall|k: int| 0 <= k < all.len() implies {
            let v = #[trigger] all[k];
            v.file == file && v.kind == ViolationKind::DistCss && names.contains(v.property)
                && v.normalized == normalize_css(v.property)
        } by {
            if k < before.len() {
                assert(all[k] == before[k]);
                let m = choose|m: int| 0 <= m < head.len() && head[m] == before[k].property;
                assert(names[m] == before[k].property);
            } else {
                assert(all[k] == step[k - before.len()]);
                assert(names[names.len() - 1] == last);
            }
        }
        assert forall|i: int, j: int| 0 <= i < j < all.len() implies lex_less(
            encode_utf8((#[trigger] all[i]).property),
            encode_utf8((#[trigger] all[j]).property),
        ) by {
            if j < before.len() {
                assert(all[i] == before[i] && all[j] == before[j]);
            } else {
                assert(all[j] == step[j - before.len()]);
                assert(all[i] == before[i]);
                let m = choose|m: int| 0 <= m < head.len() && head[m] == before[i].property;
                assert(names[m] == before[i].property);
                assert(lex_less(encode_utf8(names[m]), encode_utf8(names[names.len() - 1])));
            }
        }
    }
}

/// The violations of one stylesheet name that stylesheet, are of the kind
/// of the built stylesheets, and stand by ascending property, each property
/// once.
pub proof fn lemma_stylesheet_findings_in_order(
    file: Seq<char>,
    text: Seq<char>,
    allow: Set<Seq<char>>,
)
    ensures
        forall|k: int|
            0 <= k < stylesheet_findings(file, text, allow).len() ==> {
                let v = #[trigger] stylesheet_findings(file, text, allow)[k];
                v.file == file && v.kind == ViolationKind::DistCss && declared_properties(
                    encode_utf8(text),
                ).contains(v.property) && v.normalized == normalize_css(v.property)
            },
        ascending_by_property(stylesheet_findings(file, text, allow)),
{
    let bytes = encode_utf8(text);
    let declared = names_of(stylesheet_declarations(bytes));
    lemma_ascending(declared);
    let names = ascending(declared_properties(bytes));
    lemma_name_findings_in_order(file, bytes, names, stylesheet_declarations(bytes), allow);
    let all = stylesheet_findings(file, text, allow);
    assert forall|k: int| 0 <= k < all.len() implies declared_properties(bytes).contains(
        (#[trigger] all[k]).property,
    ) by {
        assert(names.contains(all[k].property));
        assert(names.to_set().contains(all[k].property));
    }
}

/// Whether the paths of the files stand in ascending order, equal paths
/// side by side.
pub open spec fn paths_ascending(files: Seq<SourceFile>) -> bool {
    forall|a: int, b: int|
        0 <= a < b < files.len() ==> !lex_less(
            encode_utf8((#[trigger] files[b]).path@),
            encode_utf8((#[trigger] files[a]).path@),
        )
}

proof fn lemma_listed_findings_in_order(files: Seq<SourceFile>, allow: Set<Seq<char>>, strict: bool)
    requires
        paths_ascending(files),
        strict ==> ascending_by(files, |f: SourceFile| encode_utf8(f.path@)),
    ensures
        forall|k: int|
            0 <= k < listed_findings(files, allow).len() ==> exists|m: int|
                0 <= m < files.len() && (#[trigger] files[m]).path@ == (#[trigger] listed_findings(
                    files,
                    allow,
                )[k]).file,
        ascending_by_file(listed_findings(files, allow)),
        strict ==> ascending_by_property(listed_findings(files, allow)),
    decreases files.len(),
{
    let all = listed_findings(files, allow);
    if files.len() > 0 {
        let head = files.drop_last();
        let last = files.last();
        let key = |f: SourceFile| encode_utf8(f.path@);
        assert forall|a: int, b: int| 0 <= a < b < head.len() implies !lex_less(
            encode_utf8((#[trigger] head[b]).path@),
            encode_utf8((#[trigger] head[a]).path@),
        ) by {
            assert(head[a] == files[a] && head[b] == files[b]);
        }
        if strict {
            assert forall|a: int, b: int| 0 <= a < b < head.len() implies lex_less(
                key(#[trigger] head[a]),
                key(#[trigger] head[b]),
            ) by {
                assert(head[a] == files[a] && head[b] == files[b]);
            }
        }
        lemma_listed_findings_in_order(head, allow, strict);
        lemma_stylesheet_findings_in_order(last.path@, last.text@, allow);
        let before = listed_findings(head, allow);
        let step = stylesheet_findings(last.path@, last.text@, allow);
        assert(all == before + step);
        assert forall|k: int| 0 <= k < all.len() implies exists|m: int|
            0 <= m < files.len() && (#[trigger] files[m]).path@ == (#[trigger] all[k]).file by {
            if k < before.len() {
                assert(all[k] == before[k]);
                let m = choose|m: int|
                    0 <= m < head.len() && (#[trigger] head[m]).path@ == before[k].file;
                assert(files[m].path@ == all[k].file);
            } else {
                assert(all[k] == step[k - before.len()]);
                assert(files[files.len() - 1].path@ == all[k].file);
            }
        }
        assert forall|i: int, j: int| 0 <= i < j < all.len() implies !lex_less(
            encode_utf8((#[trigger] all[j]).file),
            encode_utf8((#[trigger] all[i]).file),
        ) by {
            if j < before.len() {
                assert(all[i] == before[i] && all[j] == before[j]);
            } else {
                assert(all[j] == step[j - before.len()]);
                if i < before.len() {
                    assert(all[i] == before[i]);
                    let m = choose|m: int|
                        0 <= m < head.len() && (#[trigger] head[m]).path@ == before[i].file;
                    assert(head[m] == files[m]);
                    assert(!lex_less(
                        encode_utf8(files[files.len() - 1].path@),
                        encode_utf8(files[m].path@),
                    ));
                } else {
                    assert(all[i] == step[i - before.len()]);
                    lemma_lex_irreflexive(encode_utf8(last.path@));
                }
            }
        }
        if strict {
            assert forall|i: int, j: int|
                0 <= i < j < all.len() && (#[trigger] all[i]).file == (
                #[trigger] all[j]).file implies lex_less(
                encode_utf8(all[i].property),
                encode_utf8(all[j].property),
            ) by {
                if j < before.len() {
                    assert(all[i] == before[i] && all[j] == before[j]);
                } else {
                    assert(all[j] == step[j - before.len()]);
                    if i < before.len() {
                        assert(all[i] == before[i]);
                        let m = choose|m: int|
                            0 <= m < head.len() && (#[trigger] head[m]).path@ == before[i].file;
                        assert(head[m] == files[m]);
                        assert(lex_less(key(files[m]), key(files[files.len() - 1])));
                        lemma_lex_irreflexive(encode_utf8(last.path@));
                    } else {
                        assert(all[i] == step[i - before.len()]);
                    }
                }
            }
        }
    }
}

/// The report on the stylesheets stands file by file, the files by
/// ascending path; and where no two files have the same path, the
/// violations of each file stand by ascending property, so that no
/// property of a file is reported twice.
pub proof fn lemma_dist_findings_in_order(files: Seq<SourceFile>, allow: Set<Seq<char>>)
    ensures
        ascending_by_file(dist_findings(files, allow)),
        distinct_paths(files) ==> ascending_by_property(dist_findings(files, allow)),
{
    let keys = path_keys(files);
    let order = sort_order(keys);
    let sorted = files_in_order(files);
    lemma_sort_order(keys);
    lemma_ordered_findings(files, order, allow);
    assert forall|a: int, b: int| 0 <= a < b < sorted.len() implies !lex_less(
        encode_utf8((#[trigger] sorted[b]).path@),
        encode_utf8((#[trigger] sorted[a]).path@),
    ) by {
        assert(!lex_less(keys[order[b]], keys[order[a]]));
    }
    let strict = distinct_paths(files);
    if strict {
        lemma_files_in_order(files);
    }
    lemma_listed_findings_in_order(sorted, allow, strict);
}

} // verus!
