//! Incremental construction of SQL text in this backend's dialect: raw
//! fragments, always-quoted identifiers and positional bind placeholders.

use vstd::prelude::*;
use crate::utils::AdapterError;

verus! {

/// The backtick-escaping rule of the dialect: every backtick inside an
/// identifier is doubled.
pub open spec fn escape_backticks(s: Seq<char>) -> Seq<char>
    decreases s.len(),
{
    if s.len() == 0 {
        Seq::empty()
    } else {
        (if s[0] == '`' {
            seq!['`', '`']
        } else {
            seq![s[0]]
        }) + escape_backticks(s.drop_first())
    }
}

/// An identifier as the builder writes it: wrapped in backticks, with every
/// embedded backtick doubled. Identifiers are always quoted, whether or not
/// quoting is strictly necessary, to avoid reserved-word collisions.
pub open spec fn quoted_identifier(s: Seq<char>) -> Seq<char> {
    seq!['`'] + escape_backticks(s) + seq!['`']
}

/// Escaping an identifier without backticks changes nothing: quoting an
/// already-safe identifier only wraps it.
pub proof fn lemma_escape_safe_identifier(s: Seq<char>)
    requires
        forall|i: int| 0 <= i < s.len() ==> s[i] != '`',
    ensures
        escape_backticks(s) == s,
    decreases s.len(),
{
    if s.len() == 0 {
        assert(escape_backticks(s) =~= s);
    } else {
        lemma_escape_safe_identifier(s.drop_first());
        assert(escape_backticks(s) =~= s);
    }
}

/// Appending one character to an identifier appends its escape to the
/// escaped form.
pub proof fn lemma_escape_push(s: Seq<char>, c: char)
    ensures
        escape_backticks(s.push(c)) == escape_backticks(s) + (if c == '`' {
            seq!['`', '`']
        } else {
            seq![c]
        }),
    decreases s.len(),
{
    if s.len() == 0 {
        let p = s.push(c);
        assert(p.len() == 1);
        assert(p[0] == c);
        assert(p.drop_first() =~= Seq::<char>::empty());
        assert(escape_backticks(p.drop_first()) =~= Seq::<char>::empty());
        assert(escape_backticks(s) =~= Seq::<char>::empty());
        if c == '`' {
            assert(escape_backticks(p) =~= seq!['`', '`']);
            assert(escape_backticks(s) + seq!['`', '`'] =~= seq!['`', '`']);
        } else {
            assert(escape_backticks(p) =~= seq![c]);
            assert(escape_backticks(s) + seq![c] =~= seq![c]);
        }
    } else {
        assert(s.push(c).drop_first() =~= s.drop_first().push(c));
        lemma_escape_push(s.drop_first(), c);
        assert(escape_backticks(s.push(c)) =~= escape_backticks(s) + (if c == '`' {
            seq!['`', '`']
        } else {
            seq![c]
        }));
    }
}

/// Relies on String::push: appends exactly the given character.
#[verifier::external_body]
fn push_char(s: &mut String, c: char)
    ensures
        final(s)@ == old(s)@ + seq![c],
{
    s.push(c);
}

/// Constructs SQL text incrementally for the D1 backend. The view of a
/// builder is the character sequence accumulated so far.
pub struct D1QueryBuilder {
    sql: String,
}

impl View for D1QueryBuilder {
    type V = Seq<char>;

    closed spec fn view(&self) -> Seq<char> {
        self.sql@
    }
}

impl D1QueryBuilder {
    /// Construct a new query builder with an empty query.
    pub fn new() -> (r: Self)
        ensures
            r@ == Seq::<char>::empty(),
    {
        D1QueryBuilder { sql: String::new() }
    }

    /// Append a raw SQL fragment unchanged.
    pub fn push_sql(&mut self, sql: &str)
        ensures
            final(self)@ == old(self)@ + sql@,
    {
        self.sql.append(sql);
    }

    /// Append an identifier, always quoted: wrapped in backticks with every
    /// embedded backtick doubled.
    pub fn push_identifier(&mut self, identifier: &str) -> (r: Result<(), AdapterError>)
        ensures
            r is Ok,
            final(self)@ == old(self)@ + quoted_identifier(identifier@),
    {
        push_char(&mut self.sql, '`');
        let n = identifier.unicode_len();
        let mut i: usize = 0;
        while i < n
            invariant
                n == identifier@.len(),
                i <= n,
                self.sql@ == old(self).sql@ + seq!['`'] + escape_backticks(
                    identifier@.take(i as int),
                ),
            decreases n - i,
        {
            let c = identifier.get_char(i);
            proof {
                assert(identifier@.take(i + 1) =~= identifier@.take(i as int).push(c));
                lemma_escape_push(identifier@.take(i as int), c);
            }
            if c == '`' {
                push_char(&mut self.sql, '`');
                push_char(&mut self.sql, '`');
                proof {
                    assert(self.sql@ =~= old(self).sql@ + seq!['`'] + escape_backticks(
                        identifier@.take(i + 1),
                    ));
                }
            } else {
                push_char(&mut self.sql, c);
                proof {
                    assert(self.sql@ =~= old(self).sql@ + seq!['`'] + escape_backticks(
                        identifier@.take(i + 1),
                    ));
                }
            }
            i = i + 1;
        }
        push_char(&mut self.sql, '`');
        proof {
            assert(identifier@.take(n as int) =~= identifier@);
            assert(self.sql@ =~= old(self).sql@ + quoted_identifier(identifier@));
        }
        Ok(())
    }

    /// Append one positional bind placeholder. The Nth placeholder in the
    /// text corresponds to the Nth entry of the parallel bind list.
    pub fn push_bind_param(&mut self)
        ensures
            final(self)@ == old(self)@ + seq!['?'],
    {
        push_char(&mut self.sql, '?');
    }

    /// Consume the builder and return the accumulated SQL text.
    pub fn finish(self) -> (r: String)
        ensures
            r@ == self@,
    {
        self.sql
    }
}

impl Default for D1QueryBuilder {
    /// A fresh builder holds the empty query.
    fn default() -> (r: Self)
        ensures
            r@ == Seq::<char>::empty(),
    {
        D1QueryBuilder::new()
    }
}

} // verus!
