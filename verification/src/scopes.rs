//! The write-scope-closure repair that both grammar variants apply after
//! parsing: every scope granted write access is appended to the read list
//! unless it is already readable.

use vstd::prelude::*;

verus! {

/// `read` extended, in order, with every element of `write` it does not
/// already contain.
pub open spec fn close_scopes<T>(read: Seq<T>, write: Seq<T>) -> Seq<T>
    decreases write.len(),
{
    if write.len() == 0 {
        read
    } else {
        let grown = if read.contains(write[0]) {
            read
        } else {
            read.push(write[0])
        };
        close_scopes(grown, write.drop_first())
    }
}

/// Closing never loses an element the read list already had.
pub proof fn lemma_close_scopes_keeps<T>(read: Seq<T>, write: Seq<T>, x: T)
    requires
        read.contains(x),
    ensures
        close_scopes(read, write).contains(x),
    decreases write.len(),
{
    if write.len() > 0 {
        let grown = if read.contains(write[0]) {
            read
        } else {
            read.push(write[0])
        };
        let k = choose|k: int| 0 <= k < read.len() && read[k] == x;
        assert(grown[k] == x);
        lemma_close_scopes_keeps(grown, write.drop_first(), x);
    }
}

/// Closing makes every write scope readable.
pub proof fn lemma_close_scopes_covers<T>(read: Seq<T>, write: Seq<T>)
    ensures
        forall|i: int| 0 <= i < write.len() ==> close_scopes(read, write).contains(write[i]),
    decreases write.len(),
{
    if write.len() > 0 {
        let grown = if read.contains(write[0]) {
            read
        } else {
            read.push(write[0])
        };
        assert(grown.contains(write[0])) by {
            if !read.contains(write[0]) {
                assert(grown[read.len() as int] == write[0]);
            }
        }
        lemma_close_scopes_keeps(grown, write.drop_first(), write[0]);
        lemma_close_scopes_covers(grown, write.drop_first());
        assert forall|i: int| 0 <= i < write.len() implies close_scopes(read, write).contains(
            write[i],
        ) by {
            if i > 0 {
                assert(write.drop_first()[i - 1] == write[i]);
            }
        }
    }
}

} // verus!
