//! Writing one channel back into interleaved RGB data.

use crate::matrix::channel_of;
use vstd::prelude::*;

verus! {

/// Interleaved RGB data whose channel `channel` is replaced by `content`,
/// value `k` going to pixel `k`.
pub open spec fn merged_channel<T>(colors: Seq<T>, channel: int, content: Seq<T>) -> Seq<T> {
    Seq::new(
        colors.len(),
        |i: int|
            if i % 3 == channel {
                content[(i - channel) / 3]
            } else {
                colors[i]
            },
    )
}

/// Every position of `channel` in RGB data of length `len` has a value in
/// `content`.
pub open spec fn channel_fits(len: int, channel: int, content_len: int) -> bool {
    forall|i: int| 0 <= i < len && i % 3 == channel ==> #[trigger] ((i - channel) / 3) < content_len
}

/// Replaces channel `channel` of interleaved RGB data by `content`, whose
/// `k`-th value goes to pixel `k`.
pub fn merge_channel<T: Copy>(colors: &mut Vec<T>, channel: usize, content: Vec<T>)
    requires
        channel_fits(old(colors)@.len() as int, channel as int, content@.len() as int),
    ensures
        final(colors)@ == merged_channel(old(colors)@, channel as int, content@),
{
    let n: usize = colors.len();
    let mut i: usize = 0;
    while i < n
        invariant
            n == colors@.len(),
            n == old(colors)@.len(),
            channel_fits(n as int, channel as int, content@.len() as int),
            i <= n,
            forall|k: int|
                0 <= k < i ==> #[trigger] colors@[k] == if k % 3 == channel as int {
                    content@[(k - channel) / 3]
                } else {
                    old(colors)@[k]
                },
            forall|k: int| i <= k < n ==> #[trigger] colors@[k] == old(colors)@[k],
        decreases n - i,
    {
        if i % 3 == channel {
            assert(((i - channel) / 3) < content@.len());
            colors.set(i, content[(i - channel) / 3]);
        }
        i = i + 1;
    }
    assert(colors@ =~= merged_channel(old(colors)@, channel as int, content@));
}

/// Writing back a channel taken out of interleaved RGB data leaves the data
/// as it was.
pub proof fn law_merge_split_channel<T>(s: Seq<T>, c: int)
    requires
        0 <= c < 3,
        s.len() % 3 == 0,
    ensures
        merged_channel(s, c, channel_of(s, c)) == s,
{
    assert forall|i: int| 0 <= i < s.len() implies #[trigger] merged_channel(s, c, channel_of(s, c))[i]
        == s[i] by {
        if i % 3 == c {
            let k = (i - c) / 3;
            vstd::arithmetic::div_mod::lemma_fundamental_div_mod(i, 3);
            assert(3 * k + c == i);
            assert(k < s.len() / 3);
        }
    }
    assert(merged_channel(s, c, channel_of(s, c)) =~= s);
}

/// Merging writes pixel by pixel: the data keeps its length, and for every
/// pixel `k` and channel `c`, position `3 * k + c` holds `content[k]` when
/// `c` is the merged channel and its old value otherwise.
pub proof fn law_merge_pixel<T>(colors: Seq<T>, channel: int, content: Seq<T>, k: int, c: int)
    requires
        0 <= channel,
        0 <= k,
        0 <= c < 3,
        3 * k + c < colors.len(),
    ensures
        merged_channel(colors, channel, content).len() == colors.len(),
        merged_channel(colors, channel, content)[3 * k + c] == if c == channel {
            content[k]
        } else {
            colors[3 * k + c]
        },
{
    vstd::arithmetic::div_mod::lemma_fundamental_div_mod_converse(3 * k + c, 3, k, c);
}

} // verus!
