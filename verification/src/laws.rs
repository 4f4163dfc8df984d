//! The engine's general laws, stated over the rendering and interpolation
//! specs and proved once for all inputs.

use vstd::prelude::*;

verus! {

use crate::context::FrameV;
use crate::context::lookup_records;
use crate::context::lookup_str;
use crate::node::Tpl;
use crate::registry::Builtin;
use crate::registry::spec_default_registry;
use crate::render::Env as REnv;
use crate::render::foreach_results;
use crate::render::join_opts;
use crate::render::spec_apply_subst;
use crate::render::spec_render;
use crate::strmap::Entries;
use crate::strmap::RecordsV;
use crate::strmap::assoc_get;
use crate::subst::pat_double;
use crate::subst::pat_double_spaced;
use crate::subst::pat_single;
use crate::subst::pat_single_spaced;
use crate::subst::spec_subst_entries;
use crate::subst::spec_subst_key;
use crate::text::lemma_find_bounds;
use crate::text::match_at;
use crate::text::spec_find;
use crate::text::spec_replace;

/// A text with no brace characters, which no interpolation site can touch.
pub open spec fn brace_free(s: Seq<char>) -> bool {
    forall|i: int| 0 <= i < s.len() ==> s[i] != '{'
}

/// Replacement leaves a brace-free text alone when the pattern opens with a
/// brace.
pub proof fn lemma_no_brace_replace(s: Seq<char>, pat: Seq<char>, val: Seq<char>)
    requires
        brace_free(s),
        pat.len() > 0,
        pat[0] == '{',
    ensures
        spec_replace(s, pat, val) == s,
{
    lemma_find_bounds(s, pat, 0);
    if let Some(i) = spec_find(s, pat, 0) {
        assert(match_at(s, pat, i));
        assert(s.subrange(i, i + pat.len())[0] == s[i]);
        assert(s[i] == '{');
    }
}

/// One key's substitution leaves a brace-free text alone.
pub proof fn lemma_no_brace_subst_key(s: Seq<char>, k: Seq<char>, v: Seq<char>)
    requires
        brace_free(s),
    ensures
        spec_subst_key(s, k, v) == s,
{
    reveal_strlit("{{ ");
    reveal_strlit("{ ");
    reveal_strlit("{{");
    reveal_strlit("{");
    lemma_no_brace_replace(s, pat_double_spaced(k), v);
    lemma_no_brace_replace(s, pat_single_spaced(k), v);
    lemma_no_brace_replace(s, pat_double(k), v);
    lemma_no_brace_replace(s, pat_single(k), v);
}

/// A whole map's substitution leaves a brace-free text alone.
pub proof fn lemma_no_brace_subst_entries(s: Seq<char>, entries: Entries)
    requires
        brace_free(s),
    ensures
        spec_subst_entries(s, entries) == s,
    decreases entries.len(),
{
    if entries.len() > 0 {
        lemma_no_brace_subst_key(s, entries[0].0, entries[0].1);
        lemma_no_brace_subst_entries(s, entries.drop_first());
    }
}

/// The chain-wide interpolation pass leaves a brace-free text alone.
pub proof fn lemma_no_brace_apply_subst(s: Seq<char>, frames: Seq<FrameV>, site: Entries)
    requires
        brace_free(s),
    ensures
        spec_apply_subst(s, frames, site) == s,
    decreases frames.len(),
{
    if frames.len() == 0 {
        lemma_no_brace_subst_entries(s, site);
    } else {
        lemma_no_brace_subst_entries(s, frames.last().0);
        lemma_no_brace_apply_subst(s, frames.drop_last(), site);
    }
}

/// A conditional renders its true branch exactly when its key resolves to
/// any string in the scope chain, its false branch when one is present
/// otherwise, and nothing at all without either.
pub proof fn lemma_conditional_rendering(
    x: Seq<char>,
    t: Tpl,
    e: Option<Tpl>,
    frames: Seq<FrameV>,
    env: REnv,
    fuel: nat,
)
    ensures
        lookup_str(frames, x) is Some ==> spec_render(
            Tpl::If {
                condition: x,
                true_branch: Box::new(t),
                false_branch: match e {
                    Some(f) => Some(Box::new(f)),
                    None => None,
                },
            },
            frames,
            env,
            fuel,
        ) == spec_render(t, frames, env, fuel),
        (lookup_str(frames, x) is None && e is Some) ==> spec_render(
            Tpl::If {
                condition: x,
                true_branch: Box::new(t),
                false_branch: Some(Box::new(e->0)),
            },
            frames,
            env,
            fuel,
        ) == spec_render(e->0, frames, env, fuel),
        lookup_str(frames, x) is None && e is None ==> spec_render(
            Tpl::If { condition: x, true_branch: Box::new(t), false_branch: None },
            frames,
            env,
            fuel,
        ) == Some(Seq::<char>::empty()),
{
}

/// The concatenation of a list of texts.
pub open spec fn spec_concat_all(texts: Seq<Seq<char>>) -> Seq<char>
    decreases texts.len(),
{
    if texts.len() == 0 {
        Seq::empty()
    } else {
        texts[0] + spec_concat_all(texts.drop_first())
    }
}

/// A join of defined results is the concatenation of their values.
pub proof fn lemma_join_all_some(rs: Seq<Option<Seq<char>>>, vals: Seq<Seq<char>>)
    requires
        rs.len() == vals.len(),
        forall|j: int| 0 <= j < rs.len() ==> rs[j] == Some(vals[j]),
    ensures
        join_opts(rs) == Some(spec_concat_all(vals)),
    decreases rs.len(),
{
    if rs.len() > 0 {
        lemma_join_all_some(rs.drop_first(), vals.drop_first());
        assert(rs[0] == Some(vals[0]));
        assert(vals.drop_first().len() == rs.drop_first().len());
    }
}


/// Replacing a text that is exactly the pattern yields the value.
pub proof fn lemma_replace_whole(pat: Seq<char>, v: Seq<char>)
    requires
        pat.len() > 0,
    ensures
        spec_replace(pat, pat, v) == v,
{
    assert(match_at(pat, pat, 0)) by {
        assert(pat.subrange(0, pat.len() as int) =~= pat);
    }
    assert(spec_find(pat, pat, 0) == Some(0int));
    assert(pat.subrange(0, 0) =~= Seq::<char>::empty());
    assert(pat.subrange(pat.len() as int, pat.len() as int) =~= Seq::<char>::empty());
    assert(spec_replace(Seq::<char>::empty(), pat, v) == Seq::<char>::empty());
    assert(spec_replace(pat, pat, v) =~= v);
}

/// A pattern as long as the text but different from it does not occur.
pub proof fn lemma_replace_absent_same_len(s: Seq<char>, pat: Seq<char>, v: Seq<char>)
    requires
        s.len() == pat.len(),
        s != pat,
    ensures
        spec_replace(s, pat, v) == s,
{
    if pat.len() == 0 {
        assert(s =~= pat);
    } else {
        lemma_find_bounds(s, pat, 0);
        if let Some(i) = spec_find(s, pat, 0) {
            assert(match_at(s, pat, i));
            assert(i == 0);
            assert(s.subrange(0, pat.len() as int) =~= s);
        }
    }
}

/// A pattern longer than the text does not occur.
pub proof fn lemma_replace_absent_longer(s: Seq<char>, pat: Seq<char>, v: Seq<char>)
    requires
        pat.len() > s.len(),
    ensures
        spec_replace(s, pat, v) == s,
{
    assert(spec_find(s, pat, 0) is None);
}

/// The record of one iteration element carrying only a `name` field.
pub open spec fn name_record(n: Seq<char>) -> Entries {
    seq![("name"@, n)]
}

/// Substituting the lone `name` binding into the body text `{{name}}`
/// yields the bound value, for values free of interpolation sites.
pub proof fn lemma_name_subst(n: Seq<char>)
    requires
        brace_free(n),
    ensures
        spec_subst_entries("{{name}}"@, name_record(n)) == n,
{
    reveal_strlit("{{name}}");
    reveal_strlit("name");
    reveal_strlit("{{ name }}");
    reveal_strlit("{ name }");
    reveal_strlit("{name}");
    reveal_strlit("{{ ");
    reveal_strlit(" }}");
    reveal_strlit("{ ");
    reveal_strlit(" }");
    reveal_strlit("{{");
    reveal_strlit("}}");
    reveal_strlit("{");
    reveal_strlit("}");
    let s = "{{name}}"@;
    let k = "name"@;
    assert(pat_double_spaced(k) =~= "{{ name }}"@);
    assert(pat_single_spaced(k) =~= "{ name }"@);
    assert(pat_double(k) =~= "{{name}}"@);
    assert(pat_single(k) =~= "{name}"@);
    // the spaced spellings do not occur in the tight text
    lemma_replace_absent_longer(s, pat_double_spaced(k), n);
    assert(s != pat_single_spaced(k)) by {
        assert(s[1] != pat_single_spaced(k)[1]);
    }
    lemma_replace_absent_same_len(s, pat_single_spaced(k), n);
    // the double-brace spelling is the whole text
    lemma_replace_whole(pat_double(k), n);
    // nothing is left for the single-brace spelling
    lemma_no_brace_replace(n, pat_single(k), n);
    assert(spec_subst_key(s, k, n) == n);
    assert(name_record(n)[0] == ("name"@, n));
    assert(name_record(n).drop_first() =~= Seq::<(Seq<char>, Seq<char>)>::empty());
    assert(spec_subst_entries(s, name_record(n)) == spec_subst_entries(
        spec_subst_key(s, "name"@, n),
        name_record(n).drop_first(),
    ));
    assert(spec_subst_entries(n, Seq::<(Seq<char>, Seq<char>)>::empty()) == n);
}

/// Iterating `{{name}}` over records that each carry one `name` field
/// yields the names concatenated in the records' order; no records yield
/// the empty text.
pub proof fn lemma_foreach_names(
    key: Seq<char>,
    item: Seq<char>,
    names: Seq<Seq<char>>,
    frames: Seq<FrameV>,
    env: REnv,
    fuel: nat,
)
    requires
        lookup_records(frames, key) == Some(Seq::new(names.len(), |j: int| name_record(names[j]))),
        forall|j: int| 0 <= j < names.len() ==> brace_free(#[trigger] names[j]),
    ensures
        spec_render(
            Tpl::Foreach {
                key,
                item_name: item,
                body: Box::new(Tpl::Lit { text: "{{name}}"@ }),
            },
            frames,
            env,
            fuel,
        ) == Some(spec_concat_all(names)),
{
    let records = Seq::new(names.len(), |j: int| name_record(names[j]));
    let body = Tpl::Lit { text: "{{name}}"@ };
    let rs = foreach_results(records, body, frames, env, fuel);
    assert forall|j: int| 0 <= j < rs.len() implies rs[j] == Some(names[j]) by {
        assert(records[j] == name_record(names[j]));
        assert(spec_render(body, frames.push((records[j], Seq::<(Seq<char>, RecordsV)>::empty())), env, fuel)
            == Some("{{name}}"@));
        lemma_name_subst(names[j]);
        assert(rs[j] == Some(spec_subst_entries("{{name}}"@, records[j])));
    }
    lemma_join_all_some(rs, names);
}

/// A child scope that binds `title` decides every interpolation spelling of
/// `title`, whatever any ancestor or the site constants bind it to; a
/// sibling scope without the binding leaves the ancestors' answer in force.
pub proof fn lemma_context_shadowing(
    child_value: Seq<char>,
    frames: Seq<FrameV>,
    site: Entries,
    sibling: FrameV,
)
    requires
        brace_free(child_value),
        assoc_get(sibling.0, "title"@) is None,
    ensures
        ({
            let child: FrameV = (
                seq![("title"@, child_value)],
                Seq::<(Seq<char>, RecordsV)>::empty(),
            );
            &&& lookup_str(frames.push(child), "title"@) == Some(child_value)
            &&& spec_apply_subst("{{ title }}"@, frames.push(child), site) == child_value
            &&& spec_apply_subst("{ title }"@, frames.push(child), site) == child_value
            &&& spec_apply_subst("{{title}}"@, frames.push(child), site) == child_value
            &&& spec_apply_subst("{title}"@, frames.push(child), site) == child_value
        }),
        lookup_str(frames.push(sibling), "title"@) == lookup_str(frames, "title"@),
{
    let child: FrameV = (seq![("title"@, child_value)], Seq::<(Seq<char>, RecordsV)>::empty());
    let chain = frames.push(child);
    assert(chain.last() == child);
    assert(chain.drop_last() =~= frames);
    lemma_title_subst(child_value, "{{ title }}"@);
    lemma_title_subst(child_value, "{ title }"@);
    lemma_title_subst(child_value, "{{title}}"@);
    lemma_title_subst(child_value, "{title}"@);
    lemma_no_brace_apply_subst(child_value, frames, site);
    let sib_chain = frames.push(sibling);
    assert(sib_chain.last() == sibling);
    assert(sib_chain.drop_last() =~= frames);
}

/// Substituting the lone `title` binding into any accepted spelling of
/// `title` yields the bound value.
proof fn lemma_title_subst(v: Seq<char>, text: Seq<char>)
    requires
        brace_free(v),
        text == "{{ title }}"@ || text == "{ title }"@ || text == "{{title}}"@ || text
            == "{title}"@,
    ensures
        spec_subst_entries(text, seq![("title"@, v)]) == v,
{
    reveal_strlit("{{ title }}");
    reveal_strlit("{ title }");
    reveal_strlit("{{title}}");
    reveal_strlit("{title}");
    reveal_strlit("title");
    reveal_strlit("{{ ");
    reveal_strlit(" }}");
    reveal_strlit("{ ");
    reveal_strlit(" }");
    reveal_strlit("{{");
    reveal_strlit("}}");
    reveal_strlit("{");
    reveal_strlit("}");
    let k = "title"@;
    assert(pat_double_spaced(k) =~= "{{ title }}"@);
    assert(pat_single_spaced(k) =~= "{ title }"@);
    assert(pat_double(k) =~= "{{title}}"@);
    assert(pat_single(k) =~= "{title}"@);
    if text == "{{ title }}"@ {
        lemma_replace_whole(pat_double_spaced(k), v);
        lemma_no_brace_replace(v, pat_single_spaced(k), v);
        lemma_no_brace_replace(v, pat_double(k), v);
        lemma_no_brace_replace(v, pat_single(k), v);
    } else if text == "{ title }"@ {
        lemma_replace_absent_longer(text, pat_double_spaced(k), v);
        lemma_replace_whole(pat_single_spaced(k), v);
        lemma_no_brace_replace(v, pat_double(k), v);
        lemma_no_brace_replace(v, pat_single(k), v);
    } else if text == "{{title}}"@ {
        lemma_replace_absent_longer(text, pat_double_spaced(k), v);
        assert(text != pat_single_spaced(k)) by {
            assert(text[1] != pat_single_spaced(k)[1]);
        }
        lemma_replace_absent_same_len(text, pat_single_spaced(k), v);
        lemma_replace_whole(pat_double(k), v);
        lemma_no_brace_replace(v, pat_single(k), v);
    } else {
        lemma_replace_absent_longer(text, pat_double_spaced(k), v);
        lemma_replace_absent_longer(text, pat_single_spaced(k), v);
        lemma_replace_absent_longer(text, pat_double(k), v);
        lemma_replace_whole(pat_single(k), v);
    }
    assert(spec_subst_key(text, k, v) == v);
    let rec = seq![("title"@, v)];
    assert(rec[0] == ("title"@, v));
    assert(rec.drop_first() =~= Seq::<(Seq<char>, Seq<char>)>::empty());
    assert(spec_subst_entries(text, rec) == spec_subst_entries(
        spec_subst_key(text, "title"@, v),
        rec.drop_first(),
    ));
    assert(spec_subst_entries(v, Seq::<(Seq<char>, Seq<char>)>::empty()) == v);
    assert(seq![("title"@, v)].drop_first() =~= Seq::<(Seq<char>, Seq<char>)>::empty());
}

/// A tag calling a name that no registry entry binds renders as that name,
/// never as an error.
pub proof fn lemma_unknown_function_renders_name(
    name: Seq<char>,
    args: Seq<Seq<char>>,
    block: Option<Seq<char>>,
    frames: Seq<FrameV>,
    env: REnv,
    fuel: nat,
)
    requires
        assoc_get(env.registry, name) is None,
    ensures
        spec_render(Tpl::Call { name, args, block }, frames, env, fuel) == Some(name),
{
}

/// Calling `uppercase` with no argument yields the empty text under the
/// default registry.
pub proof fn lemma_uppercase_no_argument(frames: Seq<FrameV>, env: REnv, fuel: nat)
    requires
        env.registry == spec_default_registry(),
    ensures
        spec_render(
            Tpl::Call { name: "uppercase"@, args: Seq::empty(), block: None },
            frames,
            env,
            fuel,
        ) == Some(Seq::<char>::empty()),
{
    assert(assoc_get(env.registry, "uppercase"@) == Some(Builtin::Uppercase));
}

} // verus!
