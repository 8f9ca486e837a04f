//! What holds of stored tags as a whole.

use vstd::prelude::*;

use crate::primary_agent::tools::{
    description_among, given_tags, joined, stored_description, stored_tags, tag_list, tags_among,
};
use crate::text::{
    index_of, is_space, leading_spaces, lemma_find_from, occurs_at, split_on, starts_with, trim, trim_end, trim_start,
};

verus! {

/// A text holds no separator.
pub open spec fn free_of(s: Seq<char>, c: char) -> bool {
    forall|i: int| 0 <= i < s.len() ==> #[trigger] s[i] != c
}

proof fn lemma_occurs_char(s: Seq<char>, c: char, i: int)
    requires
        0 <= i < s.len(),
    ensures
        occurs_at(s, seq![c], i) <==> s[i] == c,
{
    assert(s.subrange(i, i + 1) =~= seq![s[i]]);
    if seq![s[i]] == seq![c] {
        assert(seq![s[i]][0] == seq![c][0]);
    }
}

/// The first position of a character is the one with no such character before it.
proof fn lemma_index_is(s: Seq<char>, c: char, i: int)
    requires
        0 <= i < s.len(),
        s[i] == c,
        forall|j: int| 0 <= j < i ==> #[trigger] s[j] != c,
    ensures
        index_of(s, c) == Some(i),
{
    lemma_find_from(s, seq![c], 0);
    lemma_occurs_char(s, c, i);
    match index_of(s, c) {
        Some(p) => {
            lemma_occurs_char(s, c, p);
        },
        None => {},
    }
}

proof fn lemma_index_none(s: Seq<char>, c: char)
    ensures
        index_of(s, c) is None <==> free_of(s, c),
        index_of(s, c) matches Some(p) ==> 0 <= p < s.len() && s[p] == c && forall|j: int|
            0 <= j < p ==> #[trigger] s[j] != c,
{
    lemma_find_from(s, seq![c], 0);
    match index_of(s, c) {
        Some(p) => {
            lemma_occurs_char(s, c, p);
            assert forall|j: int| 0 <= j < p implies #[trigger] s[j] != c by {
                lemma_occurs_char(s, c, j);
            }
        },
        None => {
            assert forall|j: int| 0 <= j < s.len() implies #[trigger] s[j] != c by {
                lemma_occurs_char(s, c, j);
            }
        },
    }
}

/// What stands before a separator and what stands behind it are split apart from each
/// other.
proof fn lemma_split_concat(a: Seq<char>, b: Seq<char>, c: char)
    ensures
        split_on(a.push(c) + b, c) == split_on(a, c) + split_on(b, c),
    decreases a.len(),
{
    let s = a.push(c) + b;
    lemma_index_none(a, c);
    match index_of(a, c) {
        None => {
            assert forall|j: int| 0 <= j < a.len() implies #[trigger] s[j] != c by {
                assert(s[j] == a[j]);
            }
            lemma_index_is(s, c, a.len() as int);
            assert(s.take(a.len() as int) =~= a);
            assert(s.skip(a.len() as int + 1) =~= b);
        },
        Some(i) => {
            assert forall|j: int| 0 <= j < i implies #[trigger] s[j] != c by {
                assert(s[j] == a[j]);
            }
            lemma_index_is(s, c, i);
            assert(s.take(i) =~= a.take(i));
            assert(s.skip(i + 1) =~= a.skip(i + 1).push(c) + b);
            lemma_split_concat(a.skip(i + 1), b, c);
            assert(seq![a.take(i)] + (split_on(a.skip(i + 1), c) + split_on(b, c)) =~= (seq![a.take(i)] + split_on(
                a.skip(i + 1),
                c,
            )) + split_on(b, c));
        },
    }
}

/// Texts that were joined are split again.
proof fn lemma_split_joined(list: Seq<Seq<char>>)
    requires
        list.len() > 0,
        forall|i: int| 0 <= i < list.len() ==> free_of(#[trigger] list[i], ','),
    ensures
        split_on(joined(list), ',') == list,
    decreases list.len(),
{
    lemma_index_none(list.last(), ',');
    if list.len() == 1 {
        assert(list =~= seq![list[0]]);
    } else {
        let init = list.drop_last();
        assert forall|i: int| 0 <= i < init.len() implies free_of(#[trigger] init[i], ',') by {
            assert(init[i] == list[i]);
        }
        lemma_split_joined(init);
        lemma_split_concat(joined(init), list.last(), ',');
        assert(list =~= init + seq![list.last()]);
    }
}

/// No part of a text that was split holds the separator.
proof fn lemma_parts_are_free(s: Seq<char>, c: char)
    ensures
        forall|i: int| 0 <= i < split_on(s, c).len() ==> free_of(#[trigger] split_on(s, c)[i], c),
    decreases s.len(),
{
    lemma_index_none(s, c);
    match index_of(s, c) {
        None => {},
        Some(p) => {
            let rest = split_on(s.skip(p + 1), c);
            lemma_parts_are_free(s.skip(p + 1), c);
            assert forall|i: int| 0 <= i < split_on(s, c).len() implies free_of(#[trigger] split_on(s, c)[i], c) by {
                if i > 0 {
                    assert(split_on(s, c)[i] == rest[i - 1]);
                }
            }
        },
    }
}

proof fn lemma_trim_start(s: Seq<char>)
    ensures
        0 <= leading_spaces(s) <= s.len(),
        trim_start(s).len() > 0 ==> !is_space(trim_start(s)[0]),
        forall|k: int| 0 <= k < trim_start(s).len() ==> #[trigger] trim_start(s)[k] == s[leading_spaces(s) + k],
    decreases s.len(),
{
    if s.len() > 0 && is_space(s[0]) {
        lemma_trim_start(s.skip(1));
        assert(s.skip(1).skip(leading_spaces(s.skip(1))) =~= s.skip(leading_spaces(s)));
    }
}

proof fn lemma_trim_end(s: Seq<char>)
    ensures
        trim_end(s).len() <= s.len(),
        trim_end(s) == s.take(trim_end(s).len() as int),
        trim_end(s).len() > 0 ==> !is_space(trim_end(s).last()),
    decreases s.len(),
{
    if s.len() > 0 && is_space(s.last()) {
        lemma_trim_end(s.drop_last());
        assert(s.drop_last().take(trim_end(s).len() as int) =~= s.take(trim_end(s).len() as int));
    } else {
        assert(s.take(s.len() as int) =~= s);
    }
}

/// A text that begins and ends without white space is not trimmed.
proof fn lemma_trimmed_already(s: Seq<char>)
    requires
        s.len() > 0 ==> !is_space(s[0]) && !is_space(s.last()),
    ensures
        trim(s) == s,
{
    assert(s.skip(0) =~= s);
}

/// Trimming leaves neither white space at the ends nor a separator that was not there,
/// and trimming again changes nothing.
proof fn lemma_trim(s: Seq<char>)
    ensures
        trim(s).len() > 0 ==> !is_space(trim(s)[0]) && !is_space(trim(s).last()),
        trim(trim(s)) == trim(s),
        free_of(s, ',') ==> free_of(trim(s), ','),
{
    let t = trim_start(s);
    lemma_trim_start(s);
    lemma_trim_end(t);
    assert forall|k: int| 0 <= k < trim(s).len() implies #[trigger] trim(s)[k] == s[leading_spaces(s) + k] by {
        assert(trim(s)[k] == t[k]);
    }
    lemma_trimmed_already(trim(s));
}

/// What was given is trimmed, not empty and without commas.
proof fn lemma_given(parts: Seq<Seq<char>>, n: int)
    requires
        0 <= n <= parts.len(),
        forall|i: int| 0 <= i < parts.len() ==> free_of(#[trigger] parts[i], ','),
    ensures
        forall|i: int|
            0 <= i < given_tags(parts, n).len() ==> {
                let t = #[trigger] given_tags(parts, n)[i];
                t.len() > 0 && trim(t) == t && free_of(t, ',')
            },
    decreases n,
{
    if n > 0 {
        lemma_given(parts, n - 1);
        lemma_trim(parts[n - 1]);
        let before = given_tags(parts, n - 1);
        assert forall|i: int| 0 <= i < given_tags(parts, n).len() implies {
            let t = #[trigger] given_tags(parts, n)[i];
            t.len() > 0 && trim(t) == t && free_of(t, ',')
        } by {
            if i < before.len() {
                assert(given_tags(parts, n)[i] == before[i]);
            }
        }
    }
}

/// A tag that is neither the internal mark nor a description.
pub open spec fn plain_tag(t: Seq<char>) -> bool {
    !starts_with(t, "desc:"@) && t != "user-created"@
}

/// Of the mark and plain tags, the tags are the plain ones, and there is no description.
proof fn lemma_plain_among(list: Seq<Seq<char>>, given: Seq<Seq<char>>, n: int)
    requires
        0 <= n <= given.len(),
        list.len() > given.len(),
        list[0] == "user-created"@,
        trim(list[0]) == list[0],
        forall|i: int| 0 <= i < given.len() ==> #[trigger] list[i + 1] == given[i],
        forall|i: int|
            0 <= i < given.len() ==> (#[trigger] given[i]).len() > 0 && trim(given[i]) == given[i] && plain_tag(given[i]),
    ensures
        tags_among(list, n + 1) == given.take(n),
        description_among(list, n + 1) == Seq::<char>::empty(),
    decreases n,
{
    reveal_strlit("user-created");
    reveal_strlit("desc:");
    if n == 0 {
        assert(given.take(0) =~= Seq::empty());
        assert(tags_among(list, 0) =~= Seq::empty());
        assert("user-created"@[0] != "desc:"@[0]);
        assert(!starts_with("user-created"@, "desc:"@)) by {
            if starts_with("user-created"@, "desc:"@) {
                assert("user-created"@.subrange(0, 5)[0] == "user-created"@[0]);
            }
        }
        assert(description_among(list, 0) =~= Seq::empty());
    } else {
        lemma_plain_among(list, given, n - 1);
        assert(list[n - 1 + 1] == given[n - 1]);
        assert(given.take(n - 1).push(given[n - 1]) =~= given.take(n));
    }
}

/// Tags and description are read back as they were stored: the list of a file, joined by
/// commas, separates into the tags that were given and the description. A comma in the
/// description would end it, and a tag that looks like a description would become one.
pub proof fn law_stored_tags_round_trip(tags: Seq<char>, description: Seq<char>)
    requires
        trim(description) == description,
        free_of(description, ','),
        ({
            let given = given_tags(split_on(tags, ','), split_on(tags, ',').len() as int);
            forall|i: int| 0 <= i < given.len() ==> plain_tag(#[trigger] given[i])
        }),
    ensures
        stored_tags(joined(tag_list(tags, description))) == joined(
            given_tags(split_on(tags, ','), split_on(tags, ',').len() as int),
        ),
        stored_description(joined(tag_list(tags, description))) == description,
{
    reveal_strlit("user-created");
    reveal_strlit("desc:");
    let parts = split_on(tags, ',');
    let given = given_tags(parts, parts.len() as int);
    let list = tag_list(tags, description);
    let mark = "desc:"@ + description;
    lemma_parts_are_free(tags, ',');
    lemma_given(parts, parts.len() as int);
    lemma_trimmed_already("user-created"@);
    lemma_trim(description);
    assert(list[0] == "user-created"@);
    assert forall|i: int| 0 <= i < given.len() implies #[trigger] list[i + 1] == given[i] by {}
    assert forall|i: int| 0 <= i < list.len() implies free_of(#[trigger] list[i], ',') by {
        if 0 < i <= given.len() {
            assert(list[i] == given[i - 1]);
        } else if i > given.len() {
            assert(list[i] == mark);
            assert forall|k: int| 0 <= k < mark.len() implies #[trigger] mark[k] != ',' by {
                if k >= 5 {
                    assert(mark[k] == description[k - 5]);
                }
            }
        }
    }
    lemma_split_joined(list);
    lemma_plain_among(list, given, given.len() as int);
    assert(given.take(given.len() as int) =~= given);
    if description.len() > 0 {
        assert(list.len() == given.len() + 2);
        assert(list[given.len() as int + 1] == mark);
        assert(mark.last() == description.last());
        assert(!is_space(mark[0]));
        lemma_trimmed_already(mark);
        assert(starts_with(mark, "desc:"@)) by {
            assert(mark.subrange(0, 5) =~= "desc:"@);
        }
        assert(mark.skip(5) =~= description);
    } else {
        assert(list.len() == given.len() + 1);
        assert(description =~= Seq::empty());
    }
}

} // verus!
