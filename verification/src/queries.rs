//! The query that lists the cards let through by a filter of tags.
use vstd::prelude::*;

use crate::decimal::{decimal, push_decimal};
use crate::text::{push_str, string_push};

verus! {

/// The text of an id: its decimal digits, after a minus sign when it is
/// negative.
pub open spec fn id_text(i: i64) -> Seq<char> {
    if i < 0 {
        seq!['-'] + decimal((-i) as nat)
    } else {
        decimal(i as nat)
    }
}

/// The ids' texts, separated by commas.
pub open spec fn id_list(ids: Seq<i64>) -> Seq<char>
    decreases ids.len(),
{
    if ids.len() == 0 {
        Seq::empty()
    } else if ids.len() == 1 {
        id_text(ids[0])
    } else {
        id_list(ids.drop_last()) + seq![','] + id_text(ids.last())
    }
}

/// The query for the cards, newest first, that carry every tag of
/// `includes` and none of `excludes`.
pub open spec fn cards_query(includes: Seq<i64>, excludes: Seq<i64>) -> Seq<char> {
    let base = "SELECT c.id FROM cards c"@;
    let with_includes = if includes.len() > 0 {
        base + " JOIN card_tags ct ON ct.card_id = c.id WHERE ct.tag_id IN ("@ + id_list(includes)
            + ") GROUP BY c.id HAVING COUNT(DISTINCT ct.tag_id) = "@ + decimal(includes.len())
    } else {
        base
    };
    let with_excludes = if excludes.len() > 0 {
        with_includes + (if includes.len() > 0 {
            " AND "@
        } else {
            " WHERE "@
        })
            + "NOT EXISTS (SELECT 1 FROM card_tags ct2 WHERE ct2.card_id = c.id AND ct2.tag_id IN ("@
            + id_list(excludes) + "))"@
    } else {
        with_includes
    };
    with_excludes + " ORDER BY c.create_time DESC"@
}

fn push_id(s: &mut String, i: i64)
    ensures
        final(s)@ == old(s)@ + id_text(i),
{
    if i < 0 {
        string_push(s, '-');
        let m: u64 = if i == i64::MIN {
            9223372036854775808u64
        } else {
            (-i) as u64
        };
        push_decimal(s, m);
        proof {
            assert(old(s)@ + id_text(i) =~= old(s)@.push('-') + decimal(m as nat));
        }
    } else {
        push_decimal(s, i as u64);
    }
}

fn push_id_list(s: &mut String, ids: &[i64])
    ensures
        final(s)@ == old(s)@ + id_list(ids@),
{
    let mut k: usize = 0;
    while k < ids.len()
        invariant
            k <= ids@.len(),
            s@ == old(s)@ + id_list(ids@.subrange(0, k as int)),
        decreases ids@.len() - k,
    {
        let ghost before = s@;
        if k > 0 {
            string_push(s, ',');
        }
        push_id(s, ids[k]);
        proof {
            let pre = ids@.subrange(0, k as int);
            let post = ids@.subrange(0, k + 1);
            assert(post.drop_last() =~= pre);
            assert(post.last() == ids@[k as int]);
            if k == 0 {
                assert(id_list(post) == id_text(ids@[0]));
                assert(id_list(pre) =~= Seq::<char>::empty());
                assert(s@ =~= old(s)@ + id_list(post));
            } else {
                assert(s@ =~= old(s)@ + id_list(post));
            }
        }
        k = k + 1;
    }
    proof {
        assert(ids@.subrange(0, ids@.len() as int) =~= ids@);
    }
}

/// The query for the cards, newest first, that carry every tag of
/// `includes` and none of `excludes`; see `cards_query`.
pub fn cards_with_tags_query(includes: &[i64], excludes: &[i64]) -> (q: String)
    ensures
        q@ == cards_query(includes@, excludes@),
{
    let mut s = String::new();
    push_str(&mut s, "SELECT c.id FROM cards c");
    if includes.len() > 0 {
        push_str(&mut s, " JOIN card_tags ct ON ct.card_id = c.id WHERE ct.tag_id IN (");
        push_id_list(&mut s, includes);
        push_str(&mut s, ") GROUP BY c.id HAVING COUNT(DISTINCT ct.tag_id) = ");
        push_decimal(&mut s, includes.len() as u64);
    }
    if excludes.len() > 0 {
        if includes.len() > 0 {
            push_str(&mut s, " AND ");
        } else {
            push_str(&mut s, " WHERE ");
        }
        push_str(&mut s, "NOT EXISTS (SELECT 1 FROM card_tags ct2 WHERE ct2.card_id = c.id AND ct2.tag_id IN (");
        push_id_list(&mut s, excludes);
        push_str(&mut s, "))");
    }
    push_str(&mut s, " ORDER BY c.create_time DESC");
    proof {
        assert(s@ =~= cards_query(includes@, excludes@));
    }
    s
}

} // verus!
