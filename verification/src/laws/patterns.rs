//! The pattern of the speed test.

use vstd::prelude::*;

use crate::usb;

verus! {

/// What a bit of the state of the generator adds to the next value.
pub open spec fn share(s: u16, bit: u16, v: u16) -> u16 {
    if s & bit != 0 {
        v
    } else {
        0
    }
}

/// The next value of the test pattern is the sum, without carry, of what each bit of the state
/// adds. It is seeded with 0x6c41.
pub proof fn law_pattern(state: u16)
    ensures
        ({
            let s = if state == 0 {
                0x6c41u16
            } else {
                state
            };
            usb::rand16_next(state) == share(s, 0x0001, 0x8181) ^ share(s, 0x0002, 0x0302)
                ^ share(s, 0x0004, 0x0705) ^ share(s, 0x0008, 0x0e0a)
                ^ share(s, 0x0010, 0x1c14) ^ share(s, 0x0020, 0x3828)
                ^ share(s, 0x0040, 0x7050) ^ share(s, 0x0080, 0xe0a0)
                ^ share(s, 0x0100, 0xc140) ^ share(s, 0x0200, 0x0301)
                ^ share(s, 0x0400, 0x0602) ^ share(s, 0x0800, 0x0c04)
                ^ share(s, 0x1000, 0x1808) ^ share(s, 0x2000, 0x3010)
                ^ share(s, 0x4000, 0x6020) ^ share(s, 0x8000, 0xc040)
        }),
{
    let s = if state == 0 {
        0x6c41u16
    } else {
        state
    };
    assert(({
        let a = s ^ (s << 7);
        let b = a ^ (a >> 9);
        b ^ (b << 8)
    }) == share(s, 0x0001, 0x8181) ^ share(s, 0x0002, 0x0302)
        ^ share(s, 0x0004, 0x0705) ^ share(s, 0x0008, 0x0e0a)
        ^ share(s, 0x0010, 0x1c14) ^ share(s, 0x0020, 0x3828)
        ^ share(s, 0x0040, 0x7050) ^ share(s, 0x0080, 0xe0a0)
        ^ share(s, 0x0100, 0xc140) ^ share(s, 0x0200, 0x0301)
        ^ share(s, 0x0400, 0x0602) ^ share(s, 0x0800, 0x0c04)
        ^ share(s, 0x1000, 0x1808) ^ share(s, 0x2000, 0x3010)
        ^ share(s, 0x4000, 0x6020) ^ share(s, 0x8000, 0xc040))
        by (bit_vector);
}

/// Word `i` of the test pattern has its low byte first.
pub proof fn law_pattern_words(data: Seq<u8>, i: int)
    requires
        0 <= i < data.len() as int / 2,
    ensures
        usb::words(data).len() == data.len() as int / 2,
        usb::words(data)[i] as int % 256 == data[2 * i],
        usb::words(data)[i] as int / 256 == data[2 * i + 1],
{
}

/// Data is the pattern if and only if each of its words is what the generator makes of the word
/// before, and the first one of the state.
pub proof fn law_pattern_matches(state: u16, words: Seq<u16>, n: int)
    requires
        0 <= n <= words.len(),
    ensures
        usb::matching(state, words, n) <==> forall|i: int|
            0 <= i < n ==> #[trigger] words[i] == usb::rand16_next(
                if i == 0 {
                    state
                } else {
                    words[i - 1]
                },
            ),
        usb::matching(state, words, n) ==> usb::rand16_after(state, n as nat) == (if n == 0 {
            state
        } else {
            words[n - 1]
        }),
{
    assert(usb::rand16_after(state, 0) == state);
    let follows = forall|i: int|
        0 <= i < n ==> #[trigger] words[i] == usb::rand16_next(
            if i == 0 {
                state
            } else {
                words[i - 1]
            },
        );
    if usb::matching(state, words, n) {
        assert forall|i: int| 0 <= i < n implies #[trigger] words[i] == usb::rand16_next(
            if i == 0 {
                state
            } else {
                words[i - 1]
            },
        ) by {
            assert(words[i] == usb::rand16_after(state, (i + 1) as nat));
            if i > 0 {
                assert(words[i - 1] == usb::rand16_after(state, (i - 1 + 1) as nat));
            }
        }
        if n > 0 {
            assert(words[n - 1] == usb::rand16_after(state, (n - 1 + 1) as nat));
        }
    }
    if follows {
        lemma_follows(state, words, n);
    }
}

proof fn lemma_follows(state: u16, words: Seq<u16>, n: int)
    requires
        0 <= n <= words.len(),
        forall|i: int|
            0 <= i < n ==> #[trigger] words[i] == usb::rand16_next(
                if i == 0 {
                    state
                } else {
                    words[i - 1]
                },
            ),
    ensures
        usb::matching(state, words, n),
    decreases n,
{
    if n > 0 {
        lemma_follows(state, words, n - 1);
        assert(usb::rand16_after(state, 0) == state);
        if n > 1 {
            assert(words[n - 2] == usb::rand16_after(state, (n - 2 + 1) as nat));
        }
        assert(words[n - 1] == usb::rand16_after(state, n as nat));
    }
}

} // verus!
