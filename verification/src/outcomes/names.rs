//! Which files are conflict copies, and under which names they are archived.
use vstd::prelude::*;

verus! {

/// Whether the text ends with `.db`.
pub open spec fn ends_in_db(s: Seq<char>) -> bool {
    let n = s.len() as int;
    n >= 3 && s[n - 3] == '.' && s[n - 2] == 'd' && s[n - 1] == 'b'
}

/// Whether the second text begins with the first.
pub open spec fn begins_with(s: Seq<char>, start: Seq<char>) -> bool {
    start.len() <= s.len() && forall|i: int|
        0 <= i < start.len() ==> #[trigger] s[i] == start[i]
}

/// The suffix `.db`, character by character.
proof fn db_suffix(s: Seq<char>)
    ensures
        ".db"@.is_suffix_of(s) <==> ends_in_db(s),
        ".db"@.len() == 3,
{
    reveal_strlit(".db");
    let n = s.len() as int;
    if n >= 3 {
        let tail = s.subrange(n - 3, n);
        if ends_in_db(s) {
            assert(tail =~= ".db"@);
        }
        if ".db"@.is_suffix_of(s) {
            assert(tail[0] == '.' && tail[1] == 'd' && tail[2] == 'b');
        }
    }
}

/// A stem is what is left of a name without the suffixes `.db` at its end, and
/// has none of them itself.
pub proof fn law_stems(name: Seq<char>)
    ensures
        begins_with(name, crate::merge::stem(name)),
        !ends_in_db(crate::merge::stem(name)),
        !ends_in_db(name) ==> crate::merge::stem(name) == name,
        ends_in_db(name) ==> crate::merge::stem(name) == crate::merge::stem(
            name.take(name.len() - 3),
        ),
        forall|i: int|
            0 <= i < name.len() - crate::merge::stem(name).len() ==> #[trigger] name[name.len() - 1
                - i] == if i % 3 == 0 {
                'b'
            } else if i % 3 == 1 {
                'd'
            } else {
                '.'
            },
        (name.len() - crate::merge::stem(name).len()) % 3 == 0,
    decreases name.len(),
{
    db_suffix(name);
    if ends_in_db(name) {
        let rest = name.take(name.len() - 3);
        law_stems(rest);
        let stem = crate::merge::stem(name);
        assert forall|i: int| 0 <= i < stem.len() implies #[trigger] name[i] == stem[i] by {
            assert(rest[i] == stem[i]);
        }
        assert forall|i: int|
            0 <= i < name.len() - crate::merge::stem(name).len() implies #[trigger] name[name.len()
            - 1 - i] == if i % 3 == 0 {
            'b'
        } else if i % 3 == 1 {
            'd'
        } else {
            '.'
        } by {
            if i >= 3 {
                assert(rest[rest.len() - 1 - (i - 3)] == name[name.len() - 1 - i]);
                assert((i - 3) % 3 == i % 3);
            }
        }
    }
}

/// A file is a conflict copy exactly when it ends with `.db`, is not the live
/// file, and begins with the live file's stem.
pub proof fn law_conflict_copies(name: Seq<char>, live_name: Seq<char>)
    ensures
        crate::merge::is_conflict_copy(name, live_name) <==> ends_in_db(name) && name != live_name
            && begins_with(name, crate::merge::stem(live_name)),
{
    db_suffix(name);
    let stem = crate::merge::stem(live_name);
    if begins_with(name, stem) {
        assert(stem =~= name.subrange(0, stem.len() as int));
    }
    if stem.is_prefix_of(name) {
        assert forall|i: int| 0 <= i < stem.len() implies #[trigger] name[i] == stem[i] by {
            assert(name.subrange(0, stem.len() as int)[i] == name[i]);
        }
    }
}

/// An archived copy has the stem, the stamp and, from the second attempt on, the
/// number of the attempt in its name, set apart by hyphens, and ends with `.db`.
pub proof fn law_archive_names(stem: Seq<char>, stamp: Seq<char>, attempt: nat)
    requires
        attempt >= 1,
    ensures
        ({
            let name = crate::merge::archive_name_spec(stem, stamp, attempt);
            let base = stem.push('-') + stamp;
            &&& ends_in_db(name)
            &&& begins_with(name, base)
            &&& attempt == 1 ==> name.len() == base.len() + 3
            &&& attempt > 1 ==> {
                &&& name.len() > base.len() + 4
                &&& name[base.len() as int] == '-'
                &&& crate::outcomes::text::numeral_value(
                    name.subrange(base.len() as int + 1, name.len() - 3),
                ) == attempt
            }
        }),
{
    reveal_strlit("-");
    reveal_strlit(".db");
    let name = crate::merge::archive_name_spec(stem, stamp, attempt);
    let base = stem.push('-') + stamp;
    assert(stem + "-"@ + stamp =~= base);
    crate::outcomes::text::law_numerals_tell_their_number(attempt);
    if attempt > 1 {
        assert(name.subrange(base.len() as int + 1, name.len() - 3) =~= crate::text::decimal(attempt));
    }
}

} // verus!
