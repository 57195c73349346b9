//! Reading the columns of a table from the statement that created it, as
//! the database's catalogue stores it: `CREATE TABLE name (col type, ...)`.

use vstd::prelude::*;
use crate::database::Main;
use crate::text::{chars_of, string_of};

verus! {

/// The pieces of a text between the occurrences of a character, as
/// `str::split` with a character gives them.
pub open spec fn split_at_char(s: Seq<char>, c: char) -> Seq<Seq<char>>
    decreases s.len(),
{
    if s.len() == 0 {
        seq![Seq::<char>::empty()]
    } else {
        let rest = split_at_char(s.drop_first(), c);
        if s[0] == c {
            seq![Seq::<char>::empty()] + rest
        } else {
            rest.update(0, seq![s[0]] + rest[0])
        }
    }
}

/// The pieces of a text between the occurrences of `, `, taken from the
/// left as `str::split` takes them.
pub open spec fn split_at_comma(s: Seq<char>) -> Seq<Seq<char>>
    decreases s.len(),
{
    if s.len() == 0 {
        seq![Seq::<char>::empty()]
    } else if s.len() >= 2 && s[0] == ',' && s[1] == ' ' {
        seq![Seq::<char>::empty()] + split_at_comma(s.skip(2))
    } else {
        let rest = split_at_comma(s.drop_first());
        rest.update(0, seq![s[0]] + rest[0])
    }
}

/// The pieces with `a` put before the first.
pub open spec fn prepend(a: Seq<char>, r: Seq<Seq<char>>) -> Seq<Seq<char>> {
    r.update(0, a + r[0])
}

pub open spec fn pieces_v(s: Seq<Vec<char>>) -> Seq<Seq<char>> {
    s.map_values(|p: Vec<char>| p@)
}

pub open spec fn strs_v(s: Seq<String>) -> Seq<Seq<char>> {
    s.map_values(|p: String| p@)
}

/// The column definitions of a table's statement: what stands between its
/// first `(` and the next `(` or `)`, cut at each `, `.
pub open spec fn columns_of(sql: Seq<char>) -> Seq<Seq<char>> {
    split_at_comma(split_at_char(split_at_char(sql, '(')[1], ')')[0])
}

/// Whether a statement can be read: it has a `(`, and each column
/// definition has a space after its name.
pub open spec fn sql_readable(sql: Seq<char>) -> bool {
    &&& split_at_char(sql, '(').len() >= 2
    &&& forall|j: int| 0 <= j < columns_of(sql).len() ==> split_at_char(#[trigger] columns_of(sql)[j], ' ').len() >= 2
}

/// The word of each column definition at a position: 0 for the name, 1
/// for the type.
pub open spec fn column_words(sql: Seq<char>, k: int) -> Seq<Seq<char>> {
    columns_of(sql).map_values(|e: Seq<char>| split_at_char(e, ' ')[k])
}

/// The words at a position of the columns of all the statements, in order.
pub open spec fn all_column_words(sqls: Seq<Seq<char>>, k: int) -> Seq<Seq<char>>
    decreases sqls.len(),
{
    if sqls.len() == 0 {
        Seq::empty()
    } else {
        all_column_words(sqls.drop_last(), k) + column_words(sqls.last(), k)
    }
}

pub proof fn lemma_split_char_len(s: Seq<char>, c: char)
    ensures
        split_at_char(s, c).len() >= 1,
    decreases s.len(),
{
    if s.len() > 0 {
        lemma_split_char_len(s.drop_first(), c);
    }
}

pub proof fn lemma_split_comma_len(s: Seq<char>)
    ensures
        split_at_comma(s).len() >= 1,
    decreases s.len(),
{
    if s.len() >= 2 && s[0] == ',' && s[1] == ' ' {
        lemma_split_comma_len(s.skip(2));
    } else if s.len() > 0 {
        lemma_split_comma_len(s.drop_first());
    }
}

/// Cuts a text at each occurrence of a character.
fn split_char(v: &Vec<char>, c: char) -> (r: Vec<Vec<char>>)
    ensures
        pieces_v(r@) == split_at_char(v@, c),
{
    let mut done: Vec<Vec<char>> = Vec::new();
    let mut cur: Vec<char> = Vec::new();
    let n = v.len();
    let mut i: usize = 0;
    assert(v@.skip(0) =~= v@);
    proof {
        lemma_split_char_len(v@, c);
        assert(prepend(Seq::empty(), split_at_char(v@, c)) =~= split_at_char(v@, c));
        assert(pieces_v(done@) + prepend(cur@, split_at_char(v@, c)) =~= split_at_char(v@, c));
    }
    while i < n
        invariant
            i <= n,
            n == v@.len(),
            split_at_char(v@, c) == pieces_v(done@) + prepend(cur@, split_at_char(v@.skip(i as int), c)),
        decreases n - i,
    {
        let ghost rest = split_at_char(v@.skip(i + 1), c);
        proof {
            assert(v@.skip(i as int).drop_first() =~= v@.skip(i + 1));
            lemma_split_char_len(v@.skip(i + 1), c);
        }
        if v[i] == c {
            let ghost before = done@;
            done.push(cur);
            cur = Vec::new();
            proof {
                assert(pieces_v(done@) =~= pieces_v(before).push(done@.last()@));
                assert(prepend(Seq::empty(), rest) =~= rest);
                assert(seq![Seq::<char>::empty()] + rest =~= seq![Seq::<char>::empty()].add(rest));
            }
            assert(split_at_char(v@, c) =~= pieces_v(done@) + prepend(cur@, split_at_char(v@.skip(i + 1), c)));
        } else {
            let ghost before = cur@;
            cur.push(v[i]);
            assert(cur@ + rest[0] =~= before + (seq![v@[i as int]] + rest[0]));
            assert(prepend(before, rest.update(0, seq![v@[i as int]] + rest[0])) =~= prepend(cur@, rest));
        }
        i = i + 1;
    }
    let ghost before = done@;
    done.push(cur);
    assert(pieces_v(done@) =~= pieces_v(before).push(cur@));
    assert(v@.skip(n as int) =~= Seq::<char>::empty());
    assert(prepend(cur@, seq![Seq::<char>::empty()]) =~= seq![cur@]);
    done
}

/// Cuts a text at each `, `, from the left.
fn split_comma(v: &Vec<char>) -> (r: Vec<Vec<char>>)
    ensures
        pieces_v(r@) == split_at_comma(v@),
{
    let mut done: Vec<Vec<char>> = Vec::new();
    let mut cur: Vec<char> = Vec::new();
    let n = v.len();
    let mut i: usize = 0;
    assert(v@.skip(0) =~= v@);
    proof {
        lemma_split_comma_len(v@);
        assert(prepend(Seq::empty(), split_at_comma(v@)) =~= split_at_comma(v@));
        assert(pieces_v(done@) + prepend(cur@, split_at_comma(v@)) =~= split_at_comma(v@));
    }
    while i < n
        invariant
            i <= n,
            n == v@.len(),
            split_at_comma(v@) == pieces_v(done@) + prepend(cur@, split_at_comma(v@.skip(i as int))),
        decreases n - i,
    {
        if i + 1 < n && v[i] == ',' && v[i + 1] == ' ' {
            let ghost rest = split_at_comma(v@.skip(i + 2));
            proof {
                assert(v@.skip(i as int).skip(2) =~= v@.skip(i + 2));
                lemma_split_comma_len(v@.skip(i + 2));
            }
            let ghost before = done@;
            done.push(cur);
            cur = Vec::new();
            proof {
                assert(pieces_v(done@) =~= pieces_v(before).push(done@.last()@));
                assert(prepend(Seq::empty(), rest) =~= rest);
            }
            assert(split_at_comma(v@) =~= pieces_v(done@) + prepend(cur@, split_at_comma(v@.skip(i + 2))));
            i = i + 2;
        } else {
            let ghost rest = split_at_comma(v@.skip(i + 1));
            proof {
                assert(v@.skip(i as int).drop_first() =~= v@.skip(i + 1));
                lemma_split_comma_len(v@.skip(i + 1));
            }
            let ghost before = cur@;
            cur.push(v[i]);
            assert(cur@ + rest[0] =~= before + (seq![v@[i as int]] + rest[0]));
            assert(prepend(before, rest.update(0, seq![v@[i as int]] + rest[0])) =~= prepend(cur@, rest));
            i = i + 1;
        }
    }
    let ghost before = done@;
    done.push(cur);
    assert(pieces_v(done@) =~= pieces_v(before).push(cur@));
    assert(v@.skip(n as int) =~= Seq::<char>::empty());
    assert(prepend(cur@, seq![Seq::<char>::empty()]) =~= seq![cur@]);
    done
}

impl Main {
    /// The columns of tables, from the statements that created them (the
    /// rows the catalogue gives for a table): the statements themselves,
    /// the column names and the column types, in order.
    pub fn table_collumns(sqls: &Vec<String>) -> (r: (Vec<String>, Vec<String>, Vec<String>))
        requires
            forall|i: int| 0 <= i < sqls@.len() ==> sql_readable(#[trigger] sqls@[i]@),
        ensures
            strs_v(r.0@) == strs_v(sqls@),
            strs_v(r.1@) == all_column_words(strs_v(sqls@), 0),
            strs_v(r.2@) == all_column_words(strs_v(sqls@), 1),
    {
        let mut t1: Vec<String> = Vec::new();
        let mut t2: Vec<String> = Vec::new();
        let mut outvec: Vec<String> = Vec::new();
        let mut i: usize = 0;
        while i < sqls.len()
            invariant
                i <= sqls@.len(),
                forall|j: int| 0 <= j < sqls@.len() ==> sql_readable(#[trigger] sqls@[j]@),
                strs_v(outvec@) == strs_v(sqls@.take(i as int)),
                strs_v(t1@) == all_column_words(strs_v(sqls@.take(i as int)), 0),
                strs_v(t2@) == all_column_words(strs_v(sqls@.take(i as int)), 1),
            decreases sqls@.len() - i,
        {
            let g1 = &sqls[i];
            let chars = chars_of(g1.as_str());
            let g2 = split_char(&chars, '(');
            assert(pieces_v(g2@)[1] == g2@[1]@);
            let g3 = split_char(&g2[1], ')');
            proof {
                lemma_split_char_len(g2@[1]@, ')');
            }
            assert(pieces_v(g3@)[0] == g3@[0]@);
            let g4 = split_comma(&g3[0]);
            let ghost cols = columns_of(g1@);
            assert(pieces_v(g4@) == cols);
            let ghost n1 = t1@;
            let ghost n2 = t2@;
            let mut k: usize = 0;
            while k < g4.len()
                invariant
                    k <= g4@.len(),
                    pieces_v(g4@) == cols,
                    sql_readable(g1@),
                    cols == columns_of(g1@),
                    strs_v(t1@) == strs_v(n1) + cols.take(k as int).map_values(|e: Seq<char>| split_at_char(e, ' ')[0]),
                    strs_v(t2@) == strs_v(n2) + cols.take(k as int).map_values(|e: Seq<char>| split_at_char(e, ' ')[1]),
                decreases g4@.len() - k,
            {
                let e1 = split_char(&g4[k], ' ');
                assert(pieces_v(g4@)[k as int] == g4@[k as int]@);
                assert(split_at_char(cols[k as int], ' ').len() >= 2);
                assert(pieces_v(e1@)[0] == e1@[0]@);
                assert(pieces_v(e1@)[1] == e1@[1]@);
                let a = string_of(&e1[0]);
                let b = string_of(&e1[1]);
                let ghost b1 = t1@;
                let ghost b2 = t2@;
                t1.push(a);
                t2.push(b);
                proof {
                    assert(strs_v(t1@) =~= strs_v(b1).push(a@));
                    assert(strs_v(t2@) =~= strs_v(b2).push(b@));
                    assert(cols.take(k + 1) =~= cols.take(k as int).push(cols[k as int]));
                    assert(cols.take(k + 1).map_values(|e: Seq<char>| split_at_char(e, ' ')[0])
                        =~= cols.take(k as int).map_values(|e: Seq<char>| split_at_char(e, ' ')[0]).push(split_at_char(cols[k as int], ' ')[0]));
                    assert(cols.take(k + 1).map_values(|e: Seq<char>| split_at_char(e, ' ')[1])
                        =~= cols.take(k as int).map_values(|e: Seq<char>| split_at_char(e, ' ')[1]).push(split_at_char(cols[k as int], ' ')[1]));
                }
                k = k + 1;
            }
            let ghost o = outvec@;
            outvec.push(g1.clone());
            proof {
                assert(cols.take(cols.len() as int) =~= cols);
                let s = strs_v(sqls@.take(i + 1));
                assert(s.drop_last() =~= strs_v(sqls@.take(i as int)));
                assert(s.last() == g1@);
                assert(strs_v(outvec@) =~= strs_v(o).push(g1@));
                assert(strs_v(sqls@.take(i + 1)) =~= strs_v(sqls@.take(i as int)).push(g1@));
            }
            i = i + 1;
        }
        assert(sqls@.take(sqls@.len() as int) =~= sqls@);
        (outvec, t1, t2)
    }
}

} // verus!
