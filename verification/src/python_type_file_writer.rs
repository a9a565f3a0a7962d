//! Groups column records into one `TypedDict` declaration per table and
//! assembles the whole Python source file: preamble, then every surviving
//! declaration in ascending identifier order, joined by blank lines.

use vstd::prelude::*;

use convert_case::Casing;

use crate::db_introspector::{TableColumnDefinition, TableColumnDefinitionView};
use crate::python_types::{
    dict_core_chars, requires_alternate_syntax_spec, MinimumPythonVersion, PythonDictProperty,
    PythonDictPropertyView, PythonTypedDict, PythonTypedDictView,
};
use crate::strings::{leading_digit, lex_le};
use crate::views::deep_of;

verus! {

broadcast use
    crate::views::lemma_vec_deep_view,
    crate::views::lemma_deep_of_push,
    crate::views::lemma_deep_of_insert,
    crate::views::lemma_deep_of_remove;


/// The Pascal-case (capitalized-word-boundary) form of a string, as
/// convert_case computes it.
pub uninterp spec fn pascal_of(s: Seq<char>) -> Seq<char>;

/// Relies on convert_case's `Casing::to_case` with `Case::Pascal`: the
/// Pascal-case form of a string is a function of its characters alone.
#[verifier::external_body]
fn to_pascal_case(s: &str) -> (r: String)
    ensures
        r@ == pascal_of(s@),
{
    s.to_case(convert_case::Case::Pascal)
}

/// The distinct table names of a record sequence, in first-encounter order.
pub open spec fn table_names(defs: Seq<TableColumnDefinitionView>) -> Seq<Seq<char>>
    decreases defs.len(),
{
    if defs.len() == 0 {
        Seq::<Seq<char>>::empty()
    } else {
        let pre = table_names(defs.drop_last());
        if pre.contains(defs.last().table_name) {
            pre
        } else {
            pre.push(defs.last().table_name)
        }
    }
}

/// The property one column record contributes to its table's declaration.
pub open spec fn property_of(c: TableColumnDefinitionView) -> PythonDictPropertyView {
    PythonDictPropertyView {
        name: c.column_name,
        nullable: c.nullable,
        data_type: crate::python_types::classify_chars(c.data_type),
    }
}

/// The properties of table `t`: one per record of `t`, in record order.
pub open spec fn properties_of(
    defs: Seq<TableColumnDefinitionView>,
    t: Seq<char>,
) -> Seq<PythonDictPropertyView>
    decreases defs.len(),
{
    if defs.len() == 0 {
        Seq::<PythonDictPropertyView>::empty()
    } else {
        let pre = properties_of(defs.drop_last(), t);
        if defs.last().table_name == t {
            pre.push(property_of(defs.last()))
        } else {
            pre
        }
    }
}

/// The declaration of table `t`: its Pascal-case identifier and its
/// properties in record order.
pub open spec fn declaration_of(
    defs: Seq<TableColumnDefinitionView>,
    t: Seq<char>,
) -> PythonTypedDictView {
    PythonTypedDictView { name: pascal_of(t), properties: properties_of(defs, t) }
}

/// One declaration per table, in first-encounter order of the tables.
pub open spec fn grouped(defs: Seq<TableColumnDefinitionView>) -> Seq<PythonTypedDictView> {
    table_names(defs).map_values(|t: Seq<char>| declaration_of(defs, t))
}

/// Inserts a declaration into a name-sorted sequence, after any
/// declarations of equal name, so sorting is stable.
pub open spec fn insert_sorted(
    s: Seq<PythonTypedDictView>,
    d: PythonTypedDictView,
) -> Seq<PythonTypedDictView>
    decreases s.len(),
{
    if s.len() == 0 {
        seq![d]
    } else if lex_le(s.last().name, d.name) {
        s.push(d)
    } else {
        insert_sorted(s.drop_last(), d).push(s.last())
    }
}

/// Stable insertion sort of declarations by identifier, ascending, in
/// ordinal (code-point) order.
pub open spec fn sort_by_name(s: Seq<PythonTypedDictView>) -> Seq<PythonTypedDictView>
    decreases s.len(),
{
    if s.len() == 0 {
        Seq::<PythonTypedDictView>::empty()
    } else {
        insert_sorted(sort_by_name(s.drop_last()), s.last())
    }
}

/// The whole grouping step: group records by table, then sort the
/// declarations by identifier.
pub open spec fn convert_spec(defs: Seq<TableColumnDefinitionView>) -> Seq<PythonTypedDictView> {
    sort_by_name(grouped(defs))
}

/// Positional characterization of `insert_sorted`: inserting at the first
/// position from the right whose predecessor compares less-or-equal.
proof fn lemma_insert_sorted_at(s: Seq<PythonTypedDictView>, d: PythonTypedDictView, j: int)
    requires
        0 <= j <= s.len(),
        forall|k: int| j <= k < s.len() ==> !lex_le(#[trigger] s[k].name, d.name),
        j > 0 ==> lex_le(s[j - 1].name, d.name),
    ensures
        insert_sorted(s, d) == s.insert(j, d),
    decreases s.len(),
{
    if s.len() == 0 {
        assert(insert_sorted(s, d) =~= s.insert(0, d));
    } else if j == s.len() {
        assert(lex_le(s.last().name, d.name));
        assert(insert_sorted(s, d) =~= s.insert(j, d));
    } else {
        assert(!lex_le(s[s.len() - 1].name, d.name));
        lemma_insert_sorted_at(s.drop_last(), d, j);
        assert(insert_sorted(s.drop_last(), d).push(s.last()) =~= s.insert(j, d));
    }
}

/// Finds where a declaration belongs in a name-sorted vector: the greatest
/// position whose predecessor's name compares less-or-equal to `d`'s.
fn insertion_position(sorted: &Vec<PythonTypedDict>, d: &PythonTypedDict) -> (j: usize)
    ensures
        j <= sorted@.len(),
        forall|k: int|
            j <= k < sorted@.len() ==> !lex_le(#[trigger] deep_of(sorted@)[k].name, d@.name),
        j > 0 ==> lex_le(deep_of(sorted@)[j - 1].name, d@.name),
{
    let mut j: usize = sorted.len();
    while j > 0
        invariant
            j <= sorted@.len(),
            forall|k: int|
                j <= k < sorted@.len() ==> !lex_le(#[trigger] deep_of(sorted@)[k].name, d@.name),
        decreases j,
    {
        if crate::strings::str_le(sorted[j - 1].name.as_str(), d.name.as_str()) {
            return j;
        }
        j = j - 1;
    }
    0
}

/// Sorts declarations by identifier, ascending, stably.
pub fn sort_declarations_by_name(dicts: Vec<PythonTypedDict>) -> (r: Vec<PythonTypedDict>)
    ensures
        r.deep_view() == sort_by_name(dicts.deep_view()),
{
    let ghost all: Seq<PythonTypedDictView> = dicts.deep_view();
    let mut work = dicts;
    let mut result: Vec<PythonTypedDict> = Vec::new();
    let ghost mut i: int = 0;
    proof {
        assert(deep_of(work@) =~= all.skip(0));
        assert(deep_of(result@) =~= sort_by_name(all.take(0)));
    }
    while work.len() > 0
        invariant
            0 <= i <= all.len(),
            deep_of(work@) == all.skip(i),
            deep_of(result@) == sort_by_name(all.take(i)),
        decreases work@.len(),
    {
        let ghost pre_work = work@;
        let ghost pre_result = deep_of(result@);
        let d = work.remove(0);
        proof {
            assert(deep_of(pre_work).len() == pre_work.len());
            assert(all.skip(i).len() == all.len() - i);
            assert(i < all.len());
            assert(deep_of(pre_work).remove(0) =~= all.skip(i + 1));
            assert(deep_of(work@) == all.skip(i + 1));
            assert(d.deep_view() == deep_of(pre_work)[0]);
            assert(d.deep_view() == all[i]);
        }
        let j = insertion_position(&result, &d);
        proof {
            lemma_insert_sorted_at(pre_result, d@, j as int);
        }
        result.insert(j, d);
        proof {
            assert(deep_of(result@) == pre_result.insert(j as int, d@));
            assert(all.take(i + 1).drop_last() =~= all.take(i));
            assert(all.take(i + 1).last() == all[i]);
            assert(deep_of(result@) == sort_by_name(all.take(i + 1)));
            i = i + 1;
        }
    }
    proof {
        assert(all.take(i) =~= all);
        assert(result.deep_view() =~= deep_of(result@));
    }
    result
}

/// Converts the column records that come from the introspection query into
/// one `TypedDict` declaration per table: properties in record order within
/// each table, identifiers in Pascal case, declarations sorted by
/// identifier.
/// Whether the vector holds a string with the given characters.
fn contains_name(names: &Vec<String>, t: &String) -> (r: bool)
    ensures
        r == names.deep_view().contains(t@),
{
    let mut j: usize = 0;
    while j < names.len()
        invariant
            j <= names@.len(),
            forall|k: int| 0 <= k < j ==> deep_of(names@)[k] != t@,
        decreases names@.len() - j,
    {
        if crate::strings::str_eq(names[j].as_str(), t.as_str()) {
            assert(deep_of(names@)[j as int] == t@);
            return true;
        }
        j = j + 1;
    }
    false
}

pub fn convert_table_column_definitions_to_python_dicts(
    table_column_definitions: Vec<TableColumnDefinition>,
) -> (r: Vec<PythonTypedDict>)
    ensures
        r.deep_view() == convert_spec(table_column_definitions.deep_view()),
{
    let defs = table_column_definitions;
    let ghost dv: Seq<TableColumnDefinitionView> = defs.deep_view();

    // first pass: the distinct table names, in first-encounter order
    let mut names: Vec<String> = Vec::new();
    let mut i: usize = 0;
    proof {
        assert(deep_of(names@) =~= table_names(dv.take(0)));
    }
    while i < defs.len()
        invariant
            i <= defs@.len(),
            dv == deep_of(defs@),
            dv.len() == defs@.len(),
            deep_of(names@) == table_names(dv.take(i as int)),
        decreases defs@.len() - i,
    {
        let t = &defs[i].table_name;
        assert(t@ == dv[i as int].table_name);
        let found = contains_name(&names, t);
        let ghost pre_names = deep_of(names@);
        if !found {
            names.push(t.clone());
            proof {
                assert(deep_of(names@) == pre_names.push(t@));
            }
        }
        proof {
            assert(dv.take(i as int + 1).drop_last() =~= dv.take(i as int));
            assert(dv.take(i as int + 1).last() == dv[i as int]);
            assert(deep_of(names@) == table_names(dv.take(i as int + 1)));
        }
        i = i + 1;
    }
    proof {
        assert(dv.take(i as int) =~= dv);
    }

    // second pass: one declaration per table, properties in record order
    let mut result: Vec<PythonTypedDict> = Vec::new();
    let mut k: usize = 0;
    proof {
        assert(deep_of(result@) =~= grouped(dv).take(0));
    }
    while k < names.len()
        invariant
            k <= names@.len(),
            dv == deep_of(defs@),
            dv.len() == defs@.len(),
            deep_of(names@) == table_names(dv),
            deep_of(result@) == grouped(dv).take(k as int),
        decreases names@.len() - k,
    {
        let ghost t_view = deep_of(names@)[k as int];
        assert(names@[k as int]@ == t_view);
        let mut props: Vec<PythonDictProperty> = Vec::new();
        let mut i2: usize = 0;
        proof {
            assert(deep_of(props@) =~= properties_of(dv.take(0), t_view));
        }
        while i2 < defs.len()
            invariant
                i2 <= defs@.len(),
                dv == deep_of(defs@),
                dv.len() == defs@.len(),
                k < names@.len(),
                t_view == names@[k as int]@,
                deep_of(props@) == properties_of(dv.take(i2 as int), t_view),
            decreases defs@.len() - i2,
        {
            let ghost pre_props = deep_of(props@);
            if crate::strings::str_eq(defs[i2].table_name.as_str(), names[k].as_str()) {
                let p = PythonDictProperty {
                    name: defs[i2].column_name.clone(),
                    nullable: defs[i2].nullable,
                    data_type: crate::python_types::classify(defs[i2].data_type.as_str()),
                };
                assert(p.deep_view() == property_of(dv[i2 as int]));
                props.push(p);
                proof {
                    assert(deep_of(props@) == pre_props.push(property_of(dv[i2 as int])));
                }
            }
            proof {
                assert(dv.take(i2 as int + 1).drop_last() =~= dv.take(i2 as int));
                assert(dv.take(i2 as int + 1).last() == dv[i2 as int]);
                assert(deep_of(props@) == properties_of(dv.take(i2 as int + 1), t_view));
            }
            i2 = i2 + 1;
        }
        proof {
            assert(dv.take(i2 as int) =~= dv);
        }
        let ghost pre_result = deep_of(result@);
        let name_k = to_pascal_case(names[k].as_str());
        let dict = PythonTypedDict { name: name_k, properties: props };
        assert(dict.deep_view() == declaration_of(dv, t_view));
        result.push(dict);
        proof {
            assert(grouped(dv)[k as int] == declaration_of(dv, t_view));
            assert(deep_of(result@) == pre_result.push(declaration_of(dv, t_view)));
            assert(grouped(dv).take(k as int + 1) =~= grouped(dv).take(k as int).push(
                grouped(dv)[k as int],
            ));
            assert(deep_of(result@) == grouped(dv).take(k as int + 1));
        }
        k = k + 1;
    }
    proof {
        assert(grouped(dv).len() == deep_of(names@).len());
        assert(grouped(dv).take(k as int) =~= grouped(dv));
    }

    // final pass: declarations in ascending identifier order
    sort_declarations_by_name(result)
}

/// A declaration survives filtering when its identifier holds no dollar
/// sign (a system-table convention) and does not start with a digit (which
/// would be invalid Python). Filtering silently omits, never errors; an
/// empty identifier survives.
pub open spec fn keeps_declaration(d: PythonTypedDictView) -> bool {
    !d.name.contains('$') && !leading_digit(d.name)
}

/// The declarations that survive filtering, in input order.
pub open spec fn surviving(s: Seq<PythonTypedDictView>) -> Seq<PythonTypedDictView>
    decreases s.len(),
{
    if s.len() == 0 {
        Seq::<PythonTypedDictView>::empty()
    } else {
        let pre = surviving(s.drop_last());
        if keeps_declaration(s.last()) {
            pre.push(s.last())
        } else {
            pre
        }
    }
}

/// The import preamble: the temporal-type namespace and the typing
/// symbols the declarations depend on. `Optional` is imported only when
/// some version tier might spell it, which the newest tier never does.
pub open spec fn preamble_chars(minimum_python_version: MinimumPythonVersion) -> Seq<char> {
    if minimum_python_version == MinimumPythonVersion::Python3_10 {
        "import datetime\nfrom typing import Any, TypedDict\n\n\n"@
    } else {
        "import datetime\nfrom typing import Any, Optional, TypedDict\n\n\n"@
    }
}

/// The core text of one declaration as the output file carries it, under
/// the syntax form the writer decides for it: alternate when the version
/// tier is the oldest or some property demands it.
pub open spec fn output_block_chars(
    d: PythonTypedDictView,
    minimum_python_version: MinimumPythonVersion,
) -> Seq<char> {
    dict_core_chars(
        d,
        minimum_python_version,
        requires_alternate_syntax_spec(d, false, minimum_python_version),
    )
}

/// The first `i` declarations' texts, joined with a blank line between
/// neighbours.
pub open spec fn rendered_blocks_upto(
    s: Seq<PythonTypedDictView>,
    minimum_python_version: MinimumPythonVersion,
    i: int,
) -> Seq<char>
    decreases i,
{
    if i <= 0 {
        Seq::<char>::empty()
    } else if i == 1 {
        output_block_chars(s[0], minimum_python_version)
    } else {
        rendered_blocks_upto(s, minimum_python_version, i - 1) + "\n\n"@ + output_block_chars(
            s[i - 1],
            minimum_python_version,
        )
    }
}

/// The declarations the output carries, in order: the survivors of
/// filtering, sorted by identifier.
pub open spec fn output_declarations(s: Seq<PythonTypedDictView>) -> Seq<PythonTypedDictView> {
    sort_by_name(surviving(s))
}

/// The whole output: preamble, then every surviving declaration in
/// ascending identifier order, joined with blank lines.
pub open spec fn output_chars(
    s: Seq<PythonTypedDictView>,
    minimum_python_version: MinimumPythonVersion,
) -> Seq<char> {
    preamble_chars(minimum_python_version) + rendered_blocks_upto(
        output_declarations(s),
        minimum_python_version,
        output_declarations(s).len() as int,
    )
}

/// Writes the declarations into one Python source text: the import
/// preamble, then each declaration that survives filtering, sorted by
/// identifier, joined with blank lines.
pub fn write_python_dicts_to_str(
    dicts: Vec<PythonTypedDict>,
    minimum_python_version: MinimumPythonVersion,
) -> (r: String)
    ensures
        r@ == output_chars(dicts.deep_view(), minimum_python_version),
{
    let ghost dv: Seq<PythonTypedDictView> = dicts.deep_view();
    let mut work = dicts;
    let mut survivors: Vec<PythonTypedDict> = Vec::new();
    let ghost mut i: int = 0;
    proof {
        assert(deep_of(work@) =~= dv.skip(0));
        assert(deep_of(survivors@) =~= surviving(dv.take(0)));
    }
    while work.len() > 0
        invariant
            0 <= i <= dv.len(),
            deep_of(work@) == dv.skip(i),
            deep_of(survivors@) == surviving(dv.take(i)),
        decreases work@.len(),
    {
        let ghost pre_work = work@;
        let ghost pre_survivors = deep_of(survivors@);
        let d = work.remove(0);
        proof {
            assert(deep_of(pre_work).len() == pre_work.len());
            assert(dv.skip(i).len() == dv.len() - i);
            assert(i < dv.len());
            assert(deep_of(pre_work).remove(0) =~= dv.skip(i + 1));
            assert(deep_of(work@) == dv.skip(i + 1));
            assert(d.deep_view() == deep_of(pre_work)[0]);
            assert(d.deep_view() == dv[i]);
        }
        let keep = !crate::strings::str_contains_char(d.name.as_str(), '$')
            && !crate::strings::str_leading_digit(d.name.as_str());
        assert(keep == keeps_declaration(dv[i]));
        if keep {
            survivors.push(d);
            proof {
                assert(deep_of(survivors@) == pre_survivors.push(dv[i]));
            }
        }
        proof {
            assert(dv.take(i + 1).drop_last() =~= dv.take(i));
            assert(dv.take(i + 1).last() == dv[i]);
            assert(deep_of(survivors@) == surviving(dv.take(i + 1)));
            i = i + 1;
        }
    }
    proof {
        assert(dv.take(i) =~= dv);
    }

    let sorted = sort_declarations_by_name(survivors);
    let ghost out: Seq<PythonTypedDictView> = output_declarations(dv);
    proof {
        assert(sorted.deep_view() =~= deep_of(sorted@));
        assert(deep_of(sorted@) == out);
    }

    let mut result = if matches!(minimum_python_version, MinimumPythonVersion::Python3_10) {
        String::from_str("import datetime\nfrom typing import Any, TypedDict\n\n\n")
    } else {
        String::from_str("import datetime\nfrom typing import Any, Optional, TypedDict\n\n\n")
    };
    let n = sorted.len();
    proof {
        assert(result@ =~= preamble_chars(minimum_python_version) + rendered_blocks_upto(
            out,
            minimum_python_version,
            0,
        ));
    }
    let mut k: usize = 0;
    while k < n
        invariant
            k <= n,
            n == sorted@.len(),
            out == deep_of(sorted@),
            out.len() == sorted@.len(),
            result@ == preamble_chars(minimum_python_version) + rendered_blocks_upto(
                out,
                minimum_python_version,
                k as int,
            ),
        decreases n - k,
    {
        if k > 0 {
            result.append("\n\n");
        }
        let d = &sorted[k];
        assert(d.deep_view() == out[k as int]);
        let use_alternate = d.requires_alternate_syntax(false, minimum_python_version);
        let block = d.as_output_block_str(minimum_python_version, use_alternate);
        result.append(block.as_str());
        proof {
            assert(block@ == output_block_chars(out[k as int], minimum_python_version));
            assert(result@ =~= preamble_chars(minimum_python_version) + rendered_blocks_upto(
                out,
                minimum_python_version,
                k as int + 1,
            ));
        }
        k = k + 1;
    }
    result
}

/// Identifiers never decrease along the sequence.
pub open spec fn sorted_by_name_le(s: Seq<PythonTypedDictView>) -> bool {
    forall|p: int, q: int| 0 <= p < q < s.len() ==> lex_le(#[trigger] s[p].name, #[trigger] s[q].name)
}

/// No two declarations share an identifier.
pub open spec fn names_distinct(s: Seq<PythonTypedDictView>) -> bool {
    forall|p: int, q: int| 0 <= p < q < s.len() ==> (#[trigger] s[p].name) != (#[trigger] s[q].name)
}

/// Identifiers strictly increase along the sequence.
pub open spec fn strictly_ascending_names(s: Seq<PythonTypedDictView>) -> bool {
    forall|p: int, q: int|
        0 <= p < q < s.len() ==> lex_le(#[trigger] s[p].name, #[trigger] s[q].name) && s[p].name
            != s[q].name
}

/// Inserting keeps an upper bound on every identifier.
proof fn lemma_insert_sorted_name_bound(
    s: Seq<PythonTypedDictView>,
    d: PythonTypedDictView,
    bound: Seq<char>,
)
    requires
        forall|p: int| 0 <= p < s.len() ==> lex_le(#[trigger] s[p].name, bound),
        lex_le(d.name, bound),
    ensures
        forall|p: int|
            0 <= p < insert_sorted(s, d).len() ==> lex_le(
                #[trigger] insert_sorted(s, d)[p].name,
                bound,
            ),
    decreases s.len(),
{
    if s.len() > 0 && !lex_le(s.last().name, d.name) {
        lemma_insert_sorted_name_bound(s.drop_last(), d, bound);
    }
    let r = insert_sorted(s, d);
    assert forall|p: int| 0 <= p < r.len() implies lex_le(#[trigger] r[p].name, bound) by {
        if s.len() == 0 {
            assert(r[p] == d);
        } else if lex_le(s.last().name, d.name) {
            if p < s.len() {
                assert(r[p] == s[p]);
            } else {
                assert(r[p] == d);
            }
        } else {
            let inner = insert_sorted(s.drop_last(), d);
            if p < inner.len() {
                assert(r[p] == inner[p]);
            } else {
                assert(r[p] == s.last());
                assert(s[s.len() - 1].name == s.last().name);
                assert(lex_le(s[s.len() - 1].name, bound));
            }
        }
    }
}

/// Inserting into a name-sorted sequence keeps it name-sorted.
pub proof fn lemma_insert_sorted_preserves_sorted(
    s: Seq<PythonTypedDictView>,
    d: PythonTypedDictView,
)
    requires
        sorted_by_name_le(s),
    ensures
        sorted_by_name_le(insert_sorted(s, d)),
    decreases s.len(),
{
    if s.len() == 0 {
    } else if lex_le(s.last().name, d.name) {
        let r = s.push(d);
        assert forall|p: int, q: int| 0 <= p < q < r.len() implies lex_le(
            #[trigger] r[p].name,
            #[trigger] r[q].name,
        ) by {
            if q == s.len() && p < s.len() - 1 {
                crate::strings::lemma_lex_le_trans(s[p].name, s.last().name, d.name);
            }
        }
    } else {
        assert(sorted_by_name_le(s.drop_last()));
        lemma_insert_sorted_preserves_sorted(s.drop_last(), d);
        crate::strings::lemma_lex_le_total(s.last().name, d.name);
        lemma_insert_sorted_name_bound(s.drop_last(), d, s.last().name);
        let inner = insert_sorted(s.drop_last(), d);
        let r = inner.push(s.last());
        assert forall|p: int, q: int| 0 <= p < q < r.len() implies lex_le(
            #[trigger] r[p].name,
            #[trigger] r[q].name,
        ) by {
            if q < inner.len() {
                assert(lex_le(inner[p].name, inner[q].name));
            }
        }
    }
}

/// Sorting yields a name-sorted sequence.
pub proof fn lemma_sort_by_name_sorted(s: Seq<PythonTypedDictView>)
    ensures
        sorted_by_name_le(sort_by_name(s)),
    decreases s.len(),
{
    if s.len() > 0 {
        lemma_sort_by_name_sorted(s.drop_last());
        lemma_insert_sorted_preserves_sorted(sort_by_name(s.drop_last()), s.last());
    }
}

/// Inserting adds exactly the inserted declaration to the contents.
proof fn lemma_insert_sorted_multiset(s: Seq<PythonTypedDictView>, d: PythonTypedDictView)
    ensures
        insert_sorted(s, d).to_multiset() == s.to_multiset().insert(d),
    decreases s.len(),
{
    broadcast use vstd::seq_lib::group_to_multiset_ensures;

    if s.len() == 0 {
        assert(insert_sorted(s, d) =~= s.push(d));
    } else if lex_le(s.last().name, d.name) {
    } else {
        lemma_insert_sorted_multiset(s.drop_last(), d);
        assert(s =~= s.drop_last().push(s.last()));
        assert((s.drop_last().to_multiset().insert(d)).insert(s.last()) =~= (
        s.drop_last().to_multiset().insert(s.last())).insert(d));
    }
}

/// Sorting neither loses nor invents declarations.
pub proof fn lemma_sort_by_name_multiset(s: Seq<PythonTypedDictView>)
    ensures
        sort_by_name(s).to_multiset() == s.to_multiset(),
    decreases s.len(),
{
    broadcast use vstd::seq_lib::group_to_multiset_ensures;

    if s.len() > 0 {
        lemma_sort_by_name_multiset(s.drop_last());
        lemma_insert_sorted_multiset(sort_by_name(s.drop_last()), s.last());
        assert(s =~= s.drop_last().push(s.last()));
    }
}

/// A declaration stands in the sorted sequence exactly when it stood in
/// the unsorted one.
pub proof fn lemma_sort_by_name_contains(s: Seq<PythonTypedDictView>, d: PythonTypedDictView)
    ensures
        sort_by_name(s).contains(d) <==> s.contains(d),
{
    broadcast use vstd::seq_lib::group_to_multiset_ensures;

    lemma_sort_by_name_multiset(s);
    assert(s.contains(d) <==> s.to_multiset().count(d) > 0);
    assert(sort_by_name(s).contains(d) <==> sort_by_name(s).to_multiset().count(d) > 0);
}

/// A declaration survives filtering exactly when it stood in the input and
/// its identifier passes both filters.
pub proof fn lemma_surviving_contains(s: Seq<PythonTypedDictView>, d: PythonTypedDictView)
    ensures
        surviving(s).contains(d) <==> (s.contains(d) && keeps_declaration(d)),
    decreases s.len(),
{
    if s.len() == 0 {
    } else {
        lemma_surviving_contains(s.drop_last(), d);
        assert(s.contains(d) <==> (s.drop_last().contains(d) || d == s.last())) by {
            if s.contains(d) {
                let idx = choose|idx: int| 0 <= idx < s.len() && s[idx] == d;
                if idx < s.len() - 1 {
                    assert(s.drop_last()[idx] == d);
                }
            }
            if s.drop_last().contains(d) {
                let idx = choose|idx: int|
                    0 <= idx < s.drop_last().len() && s.drop_last()[idx] == d;
                assert(s[idx] == d);
            }
            if d == s.last() {
                assert(s[s.len() - 1] == d);
            }
        }
        if keeps_declaration(s.last()) {
            let pre = surviving(s.drop_last());
            assert(surviving(s) == pre.push(s.last()));
            assert(surviving(s).contains(d) <==> (pre.contains(d) || d == s.last())) by {
                if pre.push(s.last()).contains(d) {
                    let idx = choose|idx: int|
                        0 <= idx < pre.push(s.last()).len() && pre.push(s.last())[idx] == d;
                    if idx < pre.len() {
                        assert(pre[idx] == d);
                    }
                }
                if pre.contains(d) {
                    let idx = choose|idx: int| 0 <= idx < pre.len() && pre[idx] == d;
                    assert(pre.push(s.last())[idx] == d);
                }
                if d == s.last() {
                    assert(pre.push(s.last())[pre.len() as int] == d);
                }
            }
        }
    }
}

/// A declaration whose identifier holds a dollar sign, or whose identifier
/// starts with a digit, never stands among the output's declarations. The
/// two filters are independent: either reason alone suffices.
pub proof fn lemma_filtered_declaration_never_output(
    s: Seq<PythonTypedDictView>,
    d: PythonTypedDictView,
)
    requires
        d.name.contains('$') || leading_digit(d.name),
    ensures
        !output_declarations(s).contains(d),
{
    lemma_surviving_contains(s, d);
    lemma_sort_by_name_contains(surviving(s), d);
}

/// Every input declaration whose identifier passes both filters stands
/// among the output's declarations.
pub proof fn lemma_kept_declaration_in_output(s: Seq<PythonTypedDictView>, d: PythonTypedDictView)
    requires
        s.contains(d),
        !d.name.contains('$'),
        !leading_digit(d.name),
    ensures
        output_declarations(s).contains(d),
{
    lemma_surviving_contains(s, d);
    lemma_sort_by_name_contains(surviving(s), d);
}

/// Distinct identifiers make the declarations pairwise distinct values.
proof fn lemma_names_distinct_no_duplicates(s: Seq<PythonTypedDictView>)
    requires
        names_distinct(s),
    ensures
        s.no_duplicates(),
{
    assert forall|p: int, q: int| 0 <= p < s.len() && 0 <= q < s.len() && p != q implies s[p]
        != s[q] by {
        if p < q {
            assert(s[p].name != s[q].name);
        } else {
            assert(s[q].name != s[p].name);
        }
    }
}

/// Filtering keeps identifiers pairwise distinct.
pub proof fn lemma_surviving_names_distinct(s: Seq<PythonTypedDictView>)
    requires
        names_distinct(s),
    ensures
        names_distinct(surviving(s)),
    decreases s.len(),
{
    if s.len() > 0 {
        assert(names_distinct(s.drop_last()));
        lemma_surviving_names_distinct(s.drop_last());
        if keeps_declaration(s.last()) {
            let pre = surviving(s.drop_last());
            assert forall|p: int| 0 <= p < pre.len() implies (#[trigger] pre[p].name)
                != s.last().name by {
                assert(pre.contains(pre[p]));
                lemma_surviving_contains(s.drop_last(), pre[p]);
                let idx = choose|idx: int|
                    0 <= idx < s.drop_last().len() && s.drop_last()[idx] == pre[p];
                assert(s[idx] == pre[p]);
                assert(s[idx].name != s[s.len() - 1].name);
            }
            let r = pre.push(s.last());
            assert forall|p: int, q: int| 0 <= p < q < r.len() implies (#[trigger] r[p].name)
                != (#[trigger] r[q].name) by {
                if q < pre.len() {
                    assert(pre[p].name != pre[q].name);
                }
            }
        }
    }
}

/// Sorting keeps identifiers pairwise distinct.
pub proof fn lemma_sort_preserves_names_distinct(s: Seq<PythonTypedDictView>)
    requires
        names_distinct(s),
    ensures
        names_distinct(sort_by_name(s)),
{
    broadcast use vstd::seq_lib::group_to_multiset_ensures;

    lemma_names_distinct_no_duplicates(s);
    s.lemma_multiset_has_no_duplicates();
    lemma_sort_by_name_multiset(s);
    sort_by_name(s).lemma_multiset_has_no_duplicates_conv();
    let t = sort_by_name(s);
    assert forall|p: int, q: int| 0 <= p < q < t.len() implies (#[trigger] t[p].name)
        != (#[trigger] t[q].name) by {
        assert(t[p] != t[q]);
        assert(t.contains(t[p]));
        assert(t.contains(t[q]));
        lemma_sort_by_name_contains(s, t[p]);
        lemma_sort_by_name_contains(s, t[q]);
        let a = choose|a: int| 0 <= a < s.len() && s[a] == t[p];
        let b = choose|b: int| 0 <= b < s.len() && s[b] == t[q];
        if a < b {
            assert(s[a].name != s[b].name);
        } else {
            assert(s[b].name != s[a].name);
        }
    }
}

/// Declarations are emitted in ascending identifier order, whatever the
/// order of the input.
pub proof fn lemma_output_declarations_sorted(s: Seq<PythonTypedDictView>)
    ensures
        sorted_by_name_le(output_declarations(s)),
{
    lemma_sort_by_name_sorted(surviving(s));
}

/// With pairwise distinct identifiers — which grouping by unique table
/// names gives whenever no two table names share a Pascal-case form — the
/// output's declarations stand in strictly ascending identifier order.
pub proof fn lemma_output_declarations_strictly_sorted(s: Seq<PythonTypedDictView>)
    requires
        names_distinct(s),
    ensures
        strictly_ascending_names(output_declarations(s)),
{
    lemma_output_declarations_sorted(s);
    lemma_surviving_names_distinct(s);
    lemma_sort_preserves_names_distinct(surviving(s));
}

/// Grouping never repeats a table name: the first-encounter list is
/// duplicate-free, so each table gets exactly one declaration.
pub proof fn lemma_table_names_no_duplicates(defs: Seq<TableColumnDefinitionView>)
    ensures
        table_names(defs).no_duplicates(),
    decreases defs.len(),
{
    if defs.len() > 0 {
        lemma_table_names_no_duplicates(defs.drop_last());
        let pre = table_names(defs.drop_last());
        if !pre.contains(defs.last().table_name) {
            let r = pre.push(defs.last().table_name);
            assert forall|p: int, q: int|
                0 <= p < r.len() && 0 <= q < r.len() && p != q implies r[p] != r[q] by {
                if p < pre.len() && q < pre.len() {
                    assert(pre[p] != pre[q]);
                } else if p < pre.len() {
                    if pre[p] == defs.last().table_name {
                        assert(pre.contains(defs.last().table_name));
                    }
                } else if q < pre.len() {
                    if pre[q] == defs.last().table_name {
                        assert(pre.contains(defs.last().table_name));
                    }
                }
            }
        }
    }
}

/// Declarations are keyed by distinct table names, so their identifiers
/// are pairwise distinct whenever no two of those table names share a
/// Pascal-case form.
pub proof fn lemma_grouped_names_distinct(defs: Seq<TableColumnDefinitionView>)
    requires
        forall|p: int, q: int|
            0 <= p < q < table_names(defs).len() ==> pascal_of(#[trigger] table_names(defs)[p])
                != pascal_of(#[trigger] table_names(defs)[q]),
    ensures
        names_distinct(grouped(defs)),
{
}

/// End to end: when no two table names share a Pascal-case form, the
/// grouped and rendered declarations stand in strictly ascending
/// identifier order, whatever the order of the records.
pub proof fn lemma_pipeline_output_strictly_sorted(defs: Seq<TableColumnDefinitionView>)
    requires
        forall|p: int, q: int|
            0 <= p < q < table_names(defs).len() ==> pascal_of(#[trigger] table_names(defs)[p])
                != pascal_of(#[trigger] table_names(defs)[q]),
    ensures
        strictly_ascending_names(output_declarations(convert_spec(defs))),
{
    lemma_grouped_names_distinct(defs);
    lemma_sort_preserves_names_distinct(grouped(defs));
    lemma_output_declarations_strictly_sorted(convert_spec(defs));
}

/// Grouping followed by rendering is deterministic: the same records under
/// the same configuration yield byte-for-byte the same text. The executable
/// pipeline meets this because each step's contract pins its result to a
/// function of its input's view alone.
pub proof fn lemma_pipeline_deterministic(
    defs1: Seq<TableColumnDefinitionView>,
    defs2: Seq<TableColumnDefinitionView>,
    v1: MinimumPythonVersion,
    v2: MinimumPythonVersion,
)
    requires
        defs1 == defs2,
        v1 == v2,
    ensures
        output_chars(convert_spec(defs1), v1) == output_chars(convert_spec(defs2), v2),
{
}

} // verus!
