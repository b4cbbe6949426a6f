//! Assembly of one executable statement: SQL text and its parallel bind list,
//! rendered once from an abstract fragment sequence and never mutated after.

use vstd::prelude::*;
use crate::backend::{metadata_of, D1Type, DeclaredType};
use crate::bind_collector::D1BindCollector;
use crate::query_builder::{quoted_identifier, D1QueryBuilder};
use crate::types::{encodes, scalar_wf, D1Scalar};
use crate::utils::AdapterError;
use crate::value::TypedValue;

verus! {

/// One piece of an abstract statement, in source order: a raw SQL fragment, a
/// quoted identifier, or a bind parameter with its declared SQL type.
pub enum Fragment {
    Raw(String),
    Identifier(String),
    Bind(D1Scalar, DeclaredType),
}

/// The text one fragment contributes to the statement.
pub open spec fn fragment_text(f: Fragment) -> Seq<char> {
    match f {
        Fragment::Raw(s) => s@,
        Fragment::Identifier(s) => quoted_identifier(s@),
        Fragment::Bind(_, _) => seq!['?'],
    }
}

/// The full SQL text of a fragment sequence.
pub open spec fn rendered_text(frags: Seq<Fragment>) -> Seq<char>
    decreases frags.len(),
{
    if frags.len() == 0 {
        Seq::empty()
    } else {
        rendered_text(frags.drop_last()) + fragment_text(frags.last())
    }
}

/// The number of bind parameters in a fragment sequence.
pub open spec fn bind_count(frags: Seq<Fragment>) -> int
    decreases frags.len(),
{
    if frags.len() == 0 {
        0
    } else {
        bind_count(frags.drop_last()) + (if frags.last() is Bind {
            1int
        } else {
            0
        })
    }
}

/// The bind-list rendering relation: `binds` is the encoded bind list of
/// `frags`, index-aligned with the bind fragments in source order.
pub open spec fn binds_render(frags: Seq<Fragment>, binds: Seq<(TypedValue, D1Type)>) -> bool
    decreases frags.len(),
{
    if frags.len() == 0 {
        binds.len() == 0
    } else {
        match frags.last() {
            Fragment::Bind(s, decl) => {
                &&& binds.len() > 0
                &&& encodes(s, binds.last().0)
                &&& binds.last().1 == metadata_of(decl)
                &&& binds_render(frags.drop_last(), binds.drop_last())
            },
            _ => binds_render(frags.drop_last(), binds),
        }
    }
}

/// The number of placeholder characters in a text.
pub open spec fn placeholder_count(s: Seq<char>) -> int
    decreases s.len(),
{
    if s.len() == 0 {
        0
    } else {
        placeholder_count(s.drop_last()) + (if s.last() == '?' {
            1int
        } else {
            0
        })
    }
}

/// Placeholder counting distributes over concatenation.
pub proof fn lemma_placeholder_count_concat(a: Seq<char>, b: Seq<char>)
    ensures
        placeholder_count(a + b) == placeholder_count(a) + placeholder_count(b),
    decreases b.len(),
{
    if b.len() == 0 {
        assert(a + b =~= a);
    } else {
        lemma_placeholder_count_concat(a, b.drop_last());
        assert((a + b).drop_last() =~= a + b.drop_last());
        assert((a + b).last() == b.last());
    }
}

/// A text without placeholder characters counts zero placeholders.
pub proof fn lemma_placeholder_count_free(s: Seq<char>)
    requires
        forall|i: int| 0 <= i < s.len() ==> s[i] != '?',
    ensures
        placeholder_count(s) == 0,
    decreases s.len(),
{
    if s.len() > 0 {
        lemma_placeholder_count_free(s.drop_last());
    }
}

/// A rendered statement: the immutable pair of SQL text and bind list,
/// produced once per execution.
pub struct RenderedStatement {
    pub sql: String,
    pub binds: Vec<(TypedValue, D1Type)>,
}

/// Whether a fragment's own text is free of placeholder characters; bind
/// fragments contribute the placeholder itself and are exempt.
pub open spec fn fragment_placeholder_free(f: Fragment) -> bool {
    match f {
        Fragment::Raw(s) => forall|i: int| 0 <= i < s@.len() ==> s@[i] != '?',
        Fragment::Identifier(s) => forall|i: int| 0 <= i < s@.len() ==> s@[i] != '?',
        Fragment::Bind(_, _) => true,
    }
}

/// Escaping introduces no placeholder characters.
proof fn lemma_escape_placeholder_free(s: Seq<char>)
    requires
        forall|i: int| 0 <= i < s.len() ==> s[i] != '?',
    ensures
        forall|i: int|
            0 <= i < crate::query_builder::escape_backticks(s).len()
                ==> crate::query_builder::escape_backticks(s)[i] != '?',
    decreases s.len(),
{
    if s.len() > 0 {
        assert(forall|i: int| 0 <= i < s.drop_first().len() ==> s.drop_first()[i] != '?');
        lemma_escape_placeholder_free(s.drop_first());
        let head = if s[0] == '`' {
            seq!['`', '`']
        } else {
            seq![s[0]]
        };
        let tail = crate::query_builder::escape_backticks(s.drop_first());
        assert(crate::query_builder::escape_backticks(s) == head + tail);
        assert forall|i: int|
            0 <= i < crate::query_builder::escape_backticks(s).len() implies crate::query_builder::escape_backticks(
            s,
        )[i] != '?' by {
            if i < head.len() {
                assert((head + tail)[i] == head[i]);
            } else {
                assert((head + tail)[i] == tail[i - head.len()]);
            }
        }
    }
}

/// The bind order invariant: a statement's bind list has exactly one entry
/// per bind fragment, in source order, and — when no raw fragment or
/// identifier carries a literal placeholder character — exactly one entry per
/// placeholder in the rendered SQL text.
pub proof fn lemma_bind_order_invariant(frags: Seq<Fragment>, binds: Seq<(TypedValue, D1Type)>)
    requires
        binds_render(frags, binds),
        forall|i: int| 0 <= i < frags.len() ==> #[trigger] fragment_placeholder_free(frags[i]),
    ensures
        binds.len() == bind_count(frags),
        placeholder_count(rendered_text(frags)) == bind_count(frags),
    decreases frags.len(),
{
    if frags.len() == 0 {
    } else {
        let fr = frags.drop_last();
        assert(forall|i: int| 0 <= i < fr.len() ==> fr[i] == frags[i]);
        let last = frags.last();
        assert(fragment_placeholder_free(last));
        match last {
            Fragment::Bind(s, decl) => {
                lemma_bind_order_invariant(fr, binds.drop_last());
                assert(fragment_text(last) =~= seq!['?']);
                assert(seq!['?'].drop_last() =~= Seq::<char>::empty());
                reveal_with_fuel(placeholder_count, 2);
                assert(placeholder_count(seq!['?']) == 1);
            },
            Fragment::Raw(s) => {
                lemma_bind_order_invariant(fr, binds);
                lemma_placeholder_count_free(s@);
            },
            Fragment::Identifier(s) => {
                lemma_bind_order_invariant(fr, binds);
                lemma_escape_placeholder_free(s@);
                lemma_placeholder_count_free(quoted_identifier(s@));
            },
        }
        lemma_placeholder_count_concat(rendered_text(fr), fragment_text(last));
    }
}

/// Appending a fragment appends its text.
proof fn lemma_rendered_text_push(frags: Seq<Fragment>, f: Fragment)
    ensures
        rendered_text(frags.push(f)) == rendered_text(frags) + fragment_text(f),
{
    assert(frags.push(f).drop_last() =~= frags);
    assert(frags.push(f).last() == f);
}

/// Appending a non-bind fragment keeps the bind relation.
proof fn lemma_binds_render_push_plain(
    frags: Seq<Fragment>,
    binds: Seq<(TypedValue, D1Type)>,
    f: Fragment,
)
    requires
        binds_render(frags, binds),
        !(f is Bind),
    ensures
        binds_render(frags.push(f), binds),
{
    assert(frags.push(f).drop_last() =~= frags);
    assert(frags.push(f).last() == f);
}

/// Appending a bind fragment and its encoded entry keeps the bind relation.
proof fn lemma_binds_render_push_bind(
    frags: Seq<Fragment>,
    binds: Seq<(TypedValue, D1Type)>,
    s: D1Scalar,
    decl: DeclaredType,
    entry: (TypedValue, D1Type),
)
    requires
        binds_render(frags, binds),
        encodes(s, entry.0),
        entry.1 == metadata_of(decl),
    ensures
        binds_render(frags.push(Fragment::Bind(s, decl)), binds.push(entry)),
{
    let fr2 = frags.push(Fragment::Bind(s, decl));
    let b2 = binds.push(entry);
    assert(fr2.drop_last() =~= frags);
    assert(fr2.last() == Fragment::Bind(s, decl));
    assert(b2.drop_last() =~= binds);
    assert(b2.last() == entry);
}

/// Render a fragment sequence into an executable statement: the SQL text with
/// its parallel, index-aligned bind list. Fails exactly when some bind
/// fragment carries a malformed scalar, in which case the whole statement is
/// discarded — there is no partial-submission path.
pub fn render_statement(fragments: &Vec<Fragment>) -> (r: Result<RenderedStatement, AdapterError>)
    ensures
        match r {
            Ok(st) => {
                &&& st.sql@ == rendered_text(fragments@)
                &&& binds_render(fragments@, st.binds@)
                &&& (forall|i: int|
                    0 <= i < fragments@.len() ==> #[trigger] fragment_placeholder_free(
                        fragments@[i],
                    )) ==> st.binds@.len() == bind_count(fragments@) && placeholder_count(st.sql@)
                    == bind_count(fragments@)
                &&& forall|i: int|
                    0 <= i < fragments@.len() ==> match #[trigger] fragments@[i] {
                        Fragment::Bind(s, _) => scalar_wf(s),
                        _ => true,
                    }
            },
            Err(e) => {
                &&& e == AdapterError::Encode(crate::utils::EncodeError::MalformedScalar)
                &&& exists|i: int|
                    0 <= i < fragments@.len() && match #[trigger] fragments@[i] {
                        Fragment::Bind(s, _) => !scalar_wf(s),
                        _ => false,
                    }
            },
        },
{
    let mut qb = D1QueryBuilder::new();
    let mut collector = D1BindCollector::new();
    let n = fragments.len();
    let mut i: usize = 0;
    while i < n
        invariant
            n == fragments@.len(),
            i <= n,
            qb@ == rendered_text(fragments@.take(i as int)),
            binds_render(fragments@.take(i as int), collector.binds@),
            forall|j: int|
                0 <= j < i ==> match #[trigger] fragments@[j] {
                    Fragment::Bind(s, _) => scalar_wf(s),
                    _ => true,
                },
        decreases n - i,
    {
        proof {
            assert(fragments@.take(i + 1) =~= fragments@.take(i as int).push(fragments@[i as int]));
        }
        match &fragments[i] {
            Fragment::Raw(s) => {
                qb.push_sql(s.as_str());
                proof {
                    lemma_rendered_text_push(fragments@.take(i as int), fragments@[i as int]);
                    lemma_binds_render_push_plain(
                        fragments@.take(i as int),
                        collector.binds@,
                        fragments@[i as int],
                    );
                }
            },
            Fragment::Identifier(s) => {
                let res = qb.push_identifier(s.as_str());
                match res {
                    Ok(()) => {},
                    Err(_) => {
                        proof {
                            assert(false);
                        }
                    },
                }
                proof {
                    lemma_rendered_text_push(fragments@.take(i as int), fragments@[i as int]);
                    lemma_binds_render_push_plain(
                        fragments@.take(i as int),
                        collector.binds@,
                        fragments@[i as int],
                    );
                }
            },
            Fragment::Bind(s, decl) => {
                let ghost old_binds = collector.binds@;
                qb.push_bind_param();
                let res = collector.push_bound_value(s, *decl);
                match res {
                    Ok(()) => {
                        proof {
                            assert(collector.binds@ =~= old_binds.push(collector.binds@.last()));
                            lemma_rendered_text_push(
                                fragments@.take(i as int),
                                fragments@[i as int],
                            );
                            lemma_binds_render_push_bind(
                                fragments@.take(i as int),
                                old_binds,
                                *s,
                                *decl,
                                collector.binds@.last(),
                            );
                        }
                    },
                    Err(e) => {
                        proof {
                            assert(fragments@[i as int] matches Fragment::Bind(s0, _)
                                && !scalar_wf(s0));
                        }
                        return Err(e);
                    },
                }
            },
        }
        i = i + 1;
    }
    proof {
        assert(fragments@.take(n as int) =~= fragments@);
        if forall|j: int|
            0 <= j < fragments@.len() ==> #[trigger] fragment_placeholder_free(fragments@[j]) {
            lemma_bind_order_invariant(fragments@, collector.binds@);
        }
    }
    Ok(RenderedStatement { sql: qb.finish(), binds: collector.binds })
}

} // verus!
