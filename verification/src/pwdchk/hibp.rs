//! The computing side of the "Have I been pwned?" range check: each password is
//! hashed with SHA-1, the upper-case hexadecimal digest is cut after five digits, the
//! accounts are grouped by that prefix, the range API's answer for a prefix is read
//! as `SUFFIX:COUNT` lines, and every account ends up with the number of breaches its
//! password was seen in, least exposed first.
use vstd::prelude::*;
use vstd::multiset::Multiset;
use sha1::{Digest, Sha1};
use crate::pwdchk::account::Account;
use crate::counting::all_distinct;
use crate::pwdchk::error::Error;
use crate::text::{
    after_first, before_first, lemma_no_separator, lemma_upper_hex_len, parse_u64, parsed_u64,
    push_upper_hex, split_once, upper_hex,
};

verus! {

/// What SHA-1 makes of the UTF-8 bytes of `text`.
pub uninterp spec fn sha1_digest(text: Seq<char>) -> Seq<u8>;

/// Calls `Digest::digest` of the `sha1` crate's `Sha1` on the UTF-8 bytes of `text`.
/// Claimed: the digest depends on the text alone, and it is twenty bytes long (the
/// hash's fixed output size). Nothing else about SHA-1 is stated.
#[verifier::external_body]
fn sha1_of_text(text: &str) -> (digest: Vec<u8>)
    ensures
        digest@ == sha1_digest(text@),
        digest@.len() == 20,
{
    Sha1::digest(text.as_bytes()).to_vec()
}

/// The first five hexadecimal digits of the password's SHA-1.
pub open spec fn hash_prefix(password: Seq<char>) -> Seq<char> {
    upper_hex(sha1_digest(password)).take(5)
}

/// The remaining thirty-five hexadecimal digits of the password's SHA-1.
pub open spec fn hash_suffix(password: Seq<char>) -> Seq<char> {
    upper_hex(sha1_digest(password)).skip(5)
}

/// The prefix sent to the range API and the suffix looked up in its answer make up the
/// whole upper-case hexadecimal hash again.
pub proof fn lemma_hash_parts_rejoin(password: Seq<char>)
    requires
        sha1_digest(password).len() == 20,
    ensures
        hash_prefix(password) + hash_suffix(password) == upper_hex(sha1_digest(password)),
        upper_hex(sha1_digest(password)).len() == 40,
{
    lemma_upper_hex_len(sha1_digest(password));
    let h = upper_hex(sha1_digest(password));
    assert(h.take(5) + h.skip(5) =~= h);
}

/// The upper-case hexadecimal SHA-1 of the account's password, cut after five digits.
pub fn sha1(account: &Account) -> (parts: (String, String))
    ensures
        parts.0@ == hash_prefix(account.password@),
        parts.1@ == hash_suffix(account.password@),
        parts.0@.len() == 5,
        parts.1@.len() == 35,
        parts.0@ + parts.1@ == upper_hex(sha1_digest(account.password@)),
{
    let digest = sha1_of_text(account.password.as_str());
    let mut hex = String::new();
    push_upper_hex(&mut hex, digest.as_slice());
    proof {
        lemma_upper_hex_len(digest@);
        lemma_hash_parts_rejoin(account.password@);
    }
    let prefix = String::from_str(hex.as_str().substring_char(0, 5));
    let suffix = String::from_str(hex.as_str().substring_char(5, 40));
    (prefix, suffix)
}

/// The hash prefix, the hash suffix and the account, for every account in order.
pub fn all_sha1<'a>(accounts: &'a [Account]) -> (hashes: Vec<(String, String, &'a Account)>)
    ensures
        hashes@.len() == accounts@.len(),
        forall|i: int|
            0 <= i < accounts@.len() ==> {
                &&& (#[trigger] hashes@[i]).0@ == hash_prefix(accounts@[i].password@)
                &&& hashes@[i].1@ == hash_suffix(accounts@[i].password@)
                &&& *hashes@[i].2 == accounts@[i]
            },
{
    let mut hashes: Vec<(String, String, &'a Account)> = Vec::new();
    let mut i: usize = 0;
    while i < accounts.len()
        invariant
            i <= accounts@.len(),
            hashes@.len() == i,
            forall|k: int|
                0 <= k < i ==> {
                    &&& (#[trigger] hashes@[k]).0@ == hash_prefix(accounts@[k].password@)
                    &&& hashes@[k].1@ == hash_suffix(accounts@[k].password@)
                    &&& *hashes@[k].2 == accounts@[k]
                },
        decreases accounts@.len() - i,
    {
        let account = &accounts[i];
        let (prefix, suffix) = sha1(account);
        hashes.push((prefix, suffix, account));
        i = i + 1;
    }
    hashes
}

/// The hash suffixes and the accounts, in order, of the accounts whose password's
/// hash starts with `prefix`.
pub open spec fn accounts_with_prefix(accounts: Seq<Account>, prefix: Seq<char>) -> Seq<(Seq<char>, Account)>
    decreases accounts.len(),
{
    if accounts.len() == 0 {
        Seq::empty()
    } else {
        let rest = accounts_with_prefix(accounts.drop_last(), prefix);
        let a = accounts.last();
        if hash_prefix(a.password@) == prefix {
            rest.push((hash_suffix(a.password@), a))
        } else {
            rest
        }
    }
}

/// A group's entries as plain values: each suffix by its text, each account by value.
pub open spec fn entries_view(entries: Seq<(String, &Account)>) -> Seq<(Seq<char>, Account)> {
    entries.map_values(|e: (String, &Account)| (e.0@, *e.1))
}

/// What `sha1_by_prefix` promises: one group per distinct hash prefix, each listing in
/// order the hash suffix and the account of every account whose hash has that prefix.
pub open spec fn is_prefix_grouping(
    accounts: Seq<Account>,
    groups: Seq<(String, Vec<(String, &Account)>)>,
) -> bool {
    &&& forall|i: int, j: int|
        0 <= i < j < groups.len() ==> (#[trigger] groups[i]).0@ != (#[trigger] groups[j]).0@
    &&& forall|i: int|
        0 <= i < groups.len() ==> entries_view((#[trigger] groups[i]).1@) == accounts_with_prefix(
            accounts,
            groups[i].0@,
        )
    &&& forall|i: int| 0 <= i < groups.len() ==> (#[trigger] groups[i]).1@.len() > 0
    &&& forall|m: int|
        0 <= m < accounts.len() ==> exists|i: int|
            0 <= i < groups.len() && (#[trigger] groups[i]).0@ == hash_prefix(
                (#[trigger] accounts[m]).password@,
            )
}

proof fn lemma_prefix_absent(accounts: Seq<Account>, prefix: Seq<char>)
    requires
        forall|m: int|
            0 <= m < accounts.len() ==> hash_prefix((#[trigger] accounts[m]).password@) != prefix,
    ensures
        accounts_with_prefix(accounts, prefix) == Seq::<(Seq<char>, Account)>::empty(),
    decreases accounts.len(),
{
    if accounts.len() > 0 {
        lemma_prefix_absent(accounts.drop_last(), prefix);
    }
}

/// The accounts grouped by the prefix of their password's hash.
pub fn sha1_by_prefix<'a>(accounts: &'a [Account]) -> (groups: Vec<(String, Vec<(String, &'a Account)>)>)
    ensures
        is_prefix_grouping(accounts@, groups@),
{
    let hash_vals = all_sha1(accounts);
    let mut groups: Vec<(String, Vec<(String, &'a Account)>)> = Vec::new();
    let mut m: usize = 0;
    while m < hash_vals.len()
        invariant
            m <= accounts@.len(),
            hash_vals@.len() == accounts@.len(),
            forall|i: int|
                0 <= i < accounts@.len() ==> {
                    &&& (#[trigger] hash_vals@[i]).0@ == hash_prefix(accounts@[i].password@)
                    &&& hash_vals@[i].1@ == hash_suffix(accounts@[i].password@)
                    &&& *hash_vals@[i].2 == accounts@[i]
                },
            is_prefix_grouping(accounts@.take(m as int), groups@),
        decreases accounts@.len() - m,
    {
        let ghost prev = accounts@.take(m as int);
        let ghost next = accounts@.take(m + 1);
        assert(next.drop_last() =~= prev);
        let prefix = &hash_vals[m].0;
        let suffix = &hash_vals[m].1;
        let account = hash_vals[m].2;
        let ghost entry = (suffix@, *account);
        assert(next.last() == accounts@[m as int]);
        let mut j: usize = 0;
        while j < groups.len()
            invariant
                j <= groups@.len(),
                forall|i: int| 0 <= i < j ==> (#[trigger] groups@[i]).0@ != prefix@,
            ensures
                j <= groups@.len(),
                j < groups@.len() ==> groups@[j as int].0@ == prefix@,
                forall|i: int| 0 <= i < j ==> (#[trigger] groups@[i]).0@ != prefix@,
            decreases groups@.len() - j,
        {
            if groups[j].0 == *prefix {
                break;
            }
            j = j + 1;
        }
        let ghost old_groups = groups@;
        if j < groups.len() {
            groups[j].1.push((suffix.clone(), account));
            proof {
                assert(groups@.len() == old_groups.len());
                assert(forall|i: int| 0 <= i < groups@.len() && i != j ==> groups@[i] == old_groups[i]);
                assert forall|i: int| 0 <= i < groups@.len() implies entries_view(
                    (#[trigger] groups@[i]).1@,
                ) == accounts_with_prefix(next, groups@[i].0@) by {
                    if i == j {
                        assert(entries_view(groups@[i].1@) =~= entries_view(old_groups[i].1@).push(
                            entry,
                        ));
                    }
                }
                assert forall|k: int| 0 <= k < next.len() implies exists|i: int|
                    0 <= i < groups@.len() && (#[trigger] groups@[i]).0@ == hash_prefix(
                        (#[trigger] next[k]).password@,
                    ) by {
                    if k < m {
                        assert(next[k] == prev[k]);
                        let i = choose|i: int|
                            0 <= i < old_groups.len() && (#[trigger] old_groups[i]).0@ == hash_prefix(
                                prev[k].password@,
                            );
                        assert(groups@[i].0 == old_groups[i].0);
                    } else {
                        assert(groups@[j as int].0@ == hash_prefix(next[k].password@));
                    }
                }
            }
        } else {
            let mut entries: Vec<(String, &'a Account)> = Vec::new();
            entries.push((suffix.clone(), account));
            groups.push((prefix.clone(), entries));
            proof {
                assert forall|k: int| 0 <= k < prev.len() implies hash_prefix(
                    (#[trigger] prev[k]).password@,
                ) != prefix@ by {
                    let i = choose|i: int|
                        0 <= i < old_groups.len() && (#[trigger] old_groups[i]).0@ == hash_prefix(
                            prev[k].password@,
                        );
                }
                lemma_prefix_absent(prev, prefix@);
                assert forall|i: int| 0 <= i < groups@.len() implies entries_view(
                    (#[trigger] groups@[i]).1@,
                ) == accounts_with_prefix(next, groups@[i].0@) by {
                    if i == old_groups.len() {
                        assert(entries_view(groups@[i].1@) =~= seq![entry]);
                    } else {
                        assert(groups@[i] == old_groups[i]);
                    }
                }
                assert forall|k: int| 0 <= k < next.len() implies exists|i: int|
                    0 <= i < groups@.len() && (#[trigger] groups@[i]).0@ == hash_prefix(
                        (#[trigger] next[k]).password@,
                    ) by {
                    if k < m {
                        assert(next[k] == prev[k]);
                        let i = choose|i: int|
                            0 <= i < old_groups.len() && (#[trigger] old_groups[i]).0@ == hash_prefix(
                                prev[k].password@,
                            );
                        assert(groups@[i] == old_groups[i]);
                    } else {
                        assert(groups@[old_groups.len() as int].0@ == hash_prefix(next[k].password@));
                    }
                }
            }
        }
        m = m + 1;
    }
    assert(accounts@.take(accounts@.len() as int) =~= accounts@);
    groups
}

/// What a line of the range API's answer holds: the hash suffix before its first
/// colon and the breach count between that colon and the next one (or the line's end);
/// `None` when the count does not read as a `u64`.
pub open spec fn suffix_line_value(line: Seq<char>) -> Option<(Seq<char>, u64)> {
    match parsed_u64(before_first(after_first(line, ':'), ':')) {
        Some(count) => Some((before_first(line, ':'), count)),
        None => None,
    }
}

/// Reads one `SUFFIX:COUNT` line.
pub fn parse_suffix_line(line: &str) -> (r: Result<(String, u64), Error>)
    requires
        line@.contains(':'),
    ensures
        match r {
            Ok((suffix, count)) => suffix_line_value(line@) == Some((suffix@, count)),
            Err(e) => e == Error::ParseIntError && suffix_line_value(line@) is None,
        },
{
    let (suffix, rest) = match split_once(line, ':') {
        Some(parts) => parts,
        None => {
            return Err(Error::ParseIntError);
        },
    };
    let field = match split_once(rest.as_str(), ':') {
        Some((count_text, _)) => count_text,
        None => {
            proof {
                lemma_no_separator(rest@, ':');
            }
            rest
        },
    };
    match parse_u64(field.as_str()) {
        Some(count) => Ok((suffix, count)),
        None => Err(Error::ParseIntError),
    }
}

/// A line that reads without trouble: it holds a colon and its count reads.
pub open spec fn is_good_line(line: Seq<char>) -> bool {
    line.contains(':') && suffix_line_value(line) is Some
}

/// Every line up to the first one that does not read well holds a colon.
pub open spec fn colons_until_first_bad_line(lines: Seq<String>) -> bool {
    forall|i: int|
        0 <= i < lines.len() && (forall|k: int| 0 <= k < i ==> is_good_line(#[trigger] lines[k]@))
            ==> (#[trigger] lines[i])@.contains(':')
}

/// Reads every line of a range answer; fails with the first line whose count does not
/// read.
pub fn parse_suffixes(lines: &Vec<String>) -> (r: Result<Vec<(String, u64)>, Error>)
    requires
        colons_until_first_bad_line(lines@),
    ensures
        match r {
            Ok(entries) => {
                &&& entries@.len() == lines@.len()
                &&& forall|i: int|
                    0 <= i < lines@.len() ==> suffix_line_value((#[trigger] lines@[i])@) == Some(
                        (entries@[i].0@, entries@[i].1),
                    )
            },
            Err(e) => {
                &&& e == Error::ParseIntError
                &&& exists|i: int|
                    0 <= i < lines@.len() && (#[trigger] lines@[i])@.contains(':') && suffix_line_value(
                        lines@[i]@,
                    ) is None && forall|k: int| 0 <= k < i ==> is_good_line(#[trigger] lines@[k]@)
            },
        },
{
    let mut entries: Vec<(String, u64)> = Vec::new();
    let mut i: usize = 0;
    while i < lines.len()
        invariant
            i <= lines@.len(),
            entries@.len() == i,
            colons_until_first_bad_line(lines@),
            forall|k: int| 0 <= k < i ==> is_good_line(#[trigger] lines@[k]@),
            forall|k: int|
                0 <= k < i ==> suffix_line_value((#[trigger] lines@[k])@) == Some(
                    (entries@[k].0@, entries@[k].1),
                ),
        decreases lines@.len() - i,
    {
        assert(lines@[i as int]@.contains(':'));
        match parse_suffix_line(lines[i].as_str()) {
            Ok(entry) => {
                entries.push(entry);
            },
            Err(e) => {
                assert(suffix_line_value(lines@[i as int]@) is None);
                return Err(e);
            },
        }
        i = i + 1;
    }
    Ok(entries)
}

/// How many breaches the answer reports for `suffix`: the count of its last line with
/// that suffix, zero when there is none.
pub open spec fn breach_count(page: Seq<(String, u64)>, suffix: Seq<char>) -> u64
    decreases page.len(),
{
    if page.len() == 0 {
        0
    } else if page.last().0@ == suffix {
        page.last().1
    } else {
        breach_count(page.drop_last(), suffix)
    }
}

/// The count given for a suffix is the count of the page's last line with that suffix,
/// exactly as stored.
pub proof fn lemma_breach_count_is_last_line(page: Seq<(String, u64)>, suffix: Seq<char>, i: int)
    requires
        0 <= i < page.len(),
        page[i].0@ == suffix,
        forall|j: int| i < j < page.len() ==> (#[trigger] page[j]).0@ != suffix,
    ensures
        breach_count(page, suffix) == page[i].1,
    decreases page.len(),
{
    if i < page.len() - 1 {
        let front = page.drop_last();
        assert(page[page.len() - 1].0@ != suffix);
        assert forall|j: int| i < j < front.len() implies (#[trigger] front[j]).0@ != suffix by {
            assert(front[j] == page[j]);
        }
        lemma_breach_count_is_last_line(front, suffix, i);
        assert(front[i] == page[i]);
    }
}

/// A suffix that no line of the page holds has no breaches.
pub proof fn lemma_breach_count_absent(page: Seq<(String, u64)>, suffix: Seq<char>)
    requires
        forall|j: int| 0 <= j < page.len() ==> (#[trigger] page[j]).0@ != suffix,
    ensures
        breach_count(page, suffix) == 0,
    decreases page.len(),
{
    if page.len() > 0 {
        let front = page.drop_last();
        assert(page[page.len() - 1].0@ != suffix);
        assert forall|j: int| 0 <= j < front.len() implies (#[trigger] front[j]).0@ != suffix by {
            assert(front[j] == page[j]);
        }
        lemma_breach_count_absent(front, suffix);
    }
}

/// The breach count that `page` gives `suffix`.
pub fn count_for(page: &Vec<(String, u64)>, suffix: &String) -> (count: u64)
    ensures
        count == breach_count(page@, suffix@),
{
    let mut i = page.len();
    assert(page@.take(i as int) =~= page@);
    while i > 0
        invariant
            i <= page@.len(),
            breach_count(page@, suffix@) == breach_count(page@.take(i as int), suffix@),
        decreases i,
    {
        assert(page@.take(i as int).drop_last() =~= page@.take(i - 1));
        if page[i - 1].0 == *suffix {
            return page[i - 1].1;
        }
        i = i - 1;
    }
    0
}

/// One row per entry of a prefix group: the account and the count the page gives its suffix.
pub open spec fn group_rows<'a>(entries: Seq<(String, &'a Account)>, page: Seq<(String, u64)>) -> Seq<(&'a Account, u64)> {
    entries.map_values(|e: (String, &'a Account)| (e.1, breach_count(page, e.0@)))
}

/// The rows of all groups in order, group `i` looked up in page `i`.
pub open spec fn breach_rows<'a>(
    groups: Seq<(String, Vec<(String, &'a Account)>)>,
    pages: Seq<Vec<(String, u64)>>,
) -> Seq<(&'a Account, u64)>
    decreases groups.len(),
{
    if groups.len() == 0 {
        Seq::empty()
    } else {
        breach_rows(groups.drop_last(), pages) + group_rows(
            groups.last().1@,
            pages[groups.len() - 1]@,
        )
    }
}

/// Rows in non-decreasing order of their count.
pub open spec fn sorted_by_count<'a>(rows: Seq<(&'a Account, u64)>) -> bool {
    forall|i: int, j: int| 0 <= i < j < rows.len() ==> (#[trigger] rows[i]).1 <= (#[trigger] rows[j]).1
}

/// The rows reordered by non-decreasing count.
pub fn sort_by_count<'a>(rows: Vec<(&'a Account, u64)>) -> (sorted: Vec<(&'a Account, u64)>)
    ensures
        sorted_by_count(sorted@),
        sorted@.to_multiset() == rows@.to_multiset(),
{
    let mut sorted: Vec<(&'a Account, u64)> = Vec::new();
    let mut k: usize = 0;
    assert(rows@.take(0) =~= sorted@);
    while k < rows.len()
        invariant
            k <= rows@.len(),
            sorted_by_count(sorted@),
            sorted@.to_multiset() == rows@.take(k as int).to_multiset(),
        decreases rows@.len() - k,
    {
        let row = rows[k];
        let mut p: usize = 0;
        while p < sorted.len() && sorted[p].1 <= row.1
            invariant
                p <= sorted@.len(),
                forall|i: int| 0 <= i < p ==> (#[trigger] sorted@[i]).1 <= row.1,
            decreases sorted@.len() - p,
        {
            p = p + 1;
        }
        let ghost before = sorted@;
        sorted.insert(p, row);
        proof {
            assert(sorted@ == before.insert(p as int, row));
            assert(rows@.take(k + 1) =~= rows@.take(k as int).push(row));
            vstd::seq_lib::to_multiset_insert(before, p as int, row);
            vstd::seq_lib::to_multiset_build(rows@.take(k as int), row);
            assert(before.insert(p as int, row).to_multiset() == before.to_multiset().insert(row));
            assert(rows@.take(k as int).push(row).to_multiset() == rows@.take(
                k as int,
            ).to_multiset().insert(row));
            assert forall|i: int, j: int| 0 <= i < j < sorted@.len() implies (
            #[trigger] sorted@[i]).1 <= (#[trigger] sorted@[j]).1 by {
                before.insert_ensures(p as int, row);
                if j < p {
                } else if j == p {
                } else if i < p {
                    assert(sorted@[j] == before[j - 1]);
                    assert(before[p as int].1 > row.1);
                    assert(before[i].1 <= row.1);
                } else if i == p {
                    assert(sorted@[j] == before[j - 1]);
                    assert(before[p as int].1 > row.1);
                    assert(before[p as int].1 <= before[j - 1].1);
                } else {
                    assert(sorted@[j] == before[j - 1]);
                    assert(sorted@[i] == before[i - 1]);
                }
            }
        }
        k = k + 1;
    }
    assert(rows@.take(rows@.len() as int) =~= rows@);
    sorted
}

/// The accounts of a group's entries.
pub open spec fn entry_accounts(entries: Seq<(Seq<char>, Account)>) -> Seq<Account> {
    entries.map_values(|e: (Seq<char>, Account)| e.1)
}

/// The accounts of report rows.
pub open spec fn row_accounts<'a>(rows: Seq<(&'a Account, u64)>) -> Seq<Account> {
    rows.map_values(|r: (&'a Account, u64)| *r.0)
}

/// The accounts listed under each of `keys`, put together.
pub open spec fn keyed_accounts(keys: Seq<Seq<char>>, accounts: Seq<Account>) -> Multiset<Account>
    decreases keys.len(),
{
    if keys.len() == 0 {
        Multiset::empty()
    } else {
        keyed_accounts(keys.drop_last(), accounts).add(
            entry_accounts(accounts_with_prefix(accounts, keys.last())).to_multiset(),
        )
    }
}

proof fn lemma_no_accounts(s: Seq<Account>)
    requires
        s.len() == 0,
    ensures
        s.to_multiset() == Multiset::<Account>::empty(),
{
    vstd::seq_lib::to_multiset_len(s);
    vstd::multiset::lemma_multiset_empty_len(s.to_multiset());
}

proof fn lemma_keyed_accounts_empty(keys: Seq<Seq<char>>)
    ensures
        keyed_accounts(keys, Seq::empty()) == Multiset::<Account>::empty(),
    decreases keys.len(),
{
    broadcast use vstd::multiset::group_multiset_axioms;

    if keys.len() > 0 {
        lemma_keyed_accounts_empty(keys.drop_last());
        let e = entry_accounts(accounts_with_prefix(Seq::<Account>::empty(), keys.last()));
        assert(e =~= Seq::<Account>::empty());
        lemma_no_accounts(e);
        assert(keyed_accounts(keys, Seq::empty()) =~= Multiset::<Account>::empty());
    }
}

proof fn lemma_keyed_accounts_push(keys: Seq<Seq<char>>, front: Seq<Account>, a: Account)
    requires
        all_distinct(keys),
    ensures
        keyed_accounts(keys, front.push(a)) == if keys.contains(hash_prefix(a.password@)) {
            keyed_accounts(keys, front).insert(a)
        } else {
            keyed_accounts(keys, front)
        },
    decreases keys.len(),
{
    broadcast use vstd::multiset::group_multiset_axioms;

    let p = hash_prefix(a.password@);
    if keys.len() > 0 {
        let kd = keys.drop_last();
        let k = keys.last();
        assert(all_distinct(kd)) by {
            assert forall|i: int, j: int| 0 <= i < j < kd.len() implies kd[i] != kd[j] by {
                assert(kd[i] == keys[i] && kd[j] == keys[j]);
            }
        }
        lemma_keyed_accounts_push(kd, front, a);
        let x = front.push(a);
        assert(x.drop_last() =~= front);
        let tf = entry_accounts(accounts_with_prefix(front, k));
        let tx = entry_accounts(accounts_with_prefix(x, k));
        if k == p {
            assert(tx =~= tf.push(a));
            vstd::seq_lib::to_multiset_build(tf, a);
            assert(!kd.contains(p)) by {
                if kd.contains(p) {
                    let i = choose|i: int| 0 <= i < kd.len() && kd[i] == p;
                    assert(keys[i] == keys[keys.len() - 1]);
                }
            }
            assert(keys.contains(p)) by {
                assert(keys[keys.len() - 1] == p);
            }
            assert(keyed_accounts(keys, x) =~= keyed_accounts(keys, front).insert(a));
        } else {
            assert(tx =~= tf);
            assert(keys.contains(p) == kd.contains(p)) by {
                if keys.contains(p) {
                    let i = choose|i: int| 0 <= i < keys.len() && keys[i] == p;
                    assert(i < keys.len() - 1);
                    assert(kd[i] == p);
                }
                if kd.contains(p) {
                    let i = choose|i: int| 0 <= i < kd.len() && kd[i] == p;
                    assert(keys[i] == p);
                }
            }
            if kd.contains(p) {
                assert(keyed_accounts(keys, x) =~= keyed_accounts(keys, front).insert(a));
            } else {
                assert(keyed_accounts(keys, x) =~= keyed_accounts(keys, front));
            }
        }
    }
}

proof fn lemma_keyed_accounts_all(keys: Seq<Seq<char>>, accounts: Seq<Account>)
    requires
        all_distinct(keys),
        forall|m: int|
            0 <= m < accounts.len() ==> keys.contains(hash_prefix((#[trigger] accounts[m]).password@)),
    ensures
        keyed_accounts(keys, accounts) == accounts.to_multiset(),
    decreases accounts.len(),
{
    broadcast use vstd::multiset::group_multiset_axioms;

    if accounts.len() == 0 {
        lemma_keyed_accounts_empty(keys);
        assert(accounts =~= Seq::<Account>::empty());
        lemma_no_accounts(accounts);
    } else {
        let front = accounts.drop_last();
        let a = accounts.last();
        assert(forall|m: int| 0 <= m < front.len() ==> #[trigger] front[m] == accounts[m]);
        lemma_keyed_accounts_all(keys, front);
        assert(front.push(a) =~= accounts);
        assert(keys.contains(hash_prefix(accounts[accounts.len() - 1].password@)));
        lemma_keyed_accounts_push(keys, front, a);
        vstd::seq_lib::to_multiset_build(front, a);
    }
}

proof fn lemma_rows_accounts(
    accounts: Seq<Account>,
    groups: Seq<(String, Vec<(String, &Account)>)>,
    pages: Seq<Vec<(String, u64)>>,
)
    requires
        forall|i: int|
            0 <= i < groups.len() ==> entries_view((#[trigger] groups[i]).1@) == accounts_with_prefix(
                accounts,
                groups[i].0@,
            ),
    ensures
        row_accounts(breach_rows(groups, pages)).to_multiset() == keyed_accounts(
            groups.map_values(|g: (String, Vec<(String, &Account)>)| g.0@),
            accounts,
        ),
    decreases groups.len(),
{
    broadcast use vstd::multiset::group_multiset_axioms;

    if groups.len() == 0 {
        assert(row_accounts(breach_rows(groups, pages)) =~= Seq::<Account>::empty());
        lemma_no_accounts(row_accounts(breach_rows(groups, pages)));
    } else {
        let front = groups.drop_last();
        let last = groups.last();
        assert(forall|i: int| 0 <= i < front.len() ==> #[trigger] front[i] == groups[i]);
        lemma_rows_accounts(accounts, front, pages);
        let keys = groups.map_values(|g: (String, Vec<(String, &Account)>)| g.0@);
        assert(keys.drop_last() =~= front.map_values(|g: (String, Vec<(String, &Account)>)| g.0@));
        assert(last == groups[groups.len() - 1]);
        let page = pages[groups.len() - 1]@;
        let a = row_accounts(breach_rows(front, pages));
        let b = row_accounts(group_rows(last.1@, page));
        assert(row_accounts(breach_rows(groups, pages)) =~= a + b);
        assert(b =~= entry_accounts(entries_view(last.1@)));
        vstd::seq_lib::lemma_multiset_commutative(a, b);
    }
}

/// The report built from a grouping by hash prefix holds exactly the accounts, each as
/// often as it occurs among them: no account is lost or repeated, whatever the pages
/// say.
pub proof fn lemma_report_holds_the_accounts(
    accounts: Seq<Account>,
    groups: Seq<(String, Vec<(String, &Account)>)>,
    pages: Seq<Vec<(String, u64)>>,
)
    requires
        is_prefix_grouping(accounts, groups),
    ensures
        row_accounts(breach_rows(groups, pages)).to_multiset() == accounts.to_multiset(),
{
    let keys = groups.map_values(|g: (String, Vec<(String, &Account)>)| g.0@);
    lemma_rows_accounts(accounts, groups, pages);
    assert forall|m: int| 0 <= m < accounts.len() implies keys.contains(
        hash_prefix((#[trigger] accounts[m]).password@),
    ) by {
        let i = choose|i: int|
            0 <= i < groups.len() && (#[trigger] groups[i]).0@ == hash_prefix(
                (#[trigger] accounts[m]).password@,
            );
        assert(keys[i] == hash_prefix(accounts[m].password@));
    }
    assert(all_distinct(keys)) by {
        assert forall|i: int, j: int| 0 <= i < j < keys.len() implies keys[i] != keys[j] by {
            assert(groups[i].0@ != groups[j].0@);
        }
    }
    lemma_keyed_accounts_all(keys, accounts);
}

proof fn lemma_entries_match_their_account(accounts: Seq<Account>, prefix: Seq<char>)
    ensures
        forall|j: int|
            0 <= j < accounts_with_prefix(accounts, prefix).len() ==> {
                let e = #[trigger] accounts_with_prefix(accounts, prefix)[j];
                &&& hash_prefix(e.1.password@) == prefix
                &&& e.0 == hash_suffix(e.1.password@)
            },
    decreases accounts.len(),
{
    if accounts.len() > 0 {
        let rest = accounts_with_prefix(accounts.drop_last(), prefix);
        lemma_entries_match_their_account(accounts.drop_last(), prefix);
        let all = accounts_with_prefix(accounts, prefix);
        assert forall|j: int| 0 <= j < all.len() implies {
            let e = #[trigger] all[j];
            &&& hash_prefix(e.1.password@) == prefix
            &&& e.0 == hash_suffix(e.1.password@)
        } by {
            if j < rest.len() {
                assert(all[j] == rest[j]);
            }
        }
    }
}

proof fn lemma_rows_match(
    accounts: Seq<Account>,
    groups: Seq<(String, Vec<(String, &Account)>)>,
    pages: Seq<Vec<(String, u64)>>,
    r: int,
)
    requires
        forall|i: int|
            0 <= i < groups.len() ==> entries_view((#[trigger] groups[i]).1@) == accounts_with_prefix(
                accounts,
                groups[i].0@,
            ),
        0 <= r < breach_rows(groups, pages).len(),
    ensures
        exists|i: int|
            0 <= i < groups.len() && (#[trigger] groups[i]).0@ == hash_prefix(
                breach_rows(groups, pages)[r].0.password@,
            ) && breach_rows(groups, pages)[r].1 == breach_count(
                pages[i]@,
                hash_suffix(breach_rows(groups, pages)[r].0.password@),
            ),
    decreases groups.len(),
{
    let front = groups.drop_last();
    let last = groups.last();
    let n = groups.len() - 1;
    assert(forall|i: int| 0 <= i < front.len() ==> #[trigger] front[i] == groups[i]);
    assert(last == groups[n]);
    let rows = breach_rows(groups, pages);
    let head = breach_rows(front, pages);
    if r < head.len() {
        lemma_rows_match(accounts, front, pages, r);
        let i = choose|i: int|
            0 <= i < front.len() && (#[trigger] front[i]).0@ == hash_prefix(head[r].0.password@)
                && head[r].1 == breach_count(pages[i]@, hash_suffix(head[r].0.password@));
        assert(rows[r] == head[r]);
        assert(groups[i] == front[i]);
    } else {
        let j = r - head.len();
        lemma_entries_match_their_account(accounts, last.0@);
        assert(entries_view(last.1@)[j] == accounts_with_prefix(accounts, last.0@)[j]);
        assert(rows[r] == group_rows(last.1@, pages[n]@)[j]);
        assert(groups[n].0@ == hash_prefix(rows[r].0.password@));
    }
}

/// What the report says of each account: a row's count is the one that the page of
/// the account's hash prefix gives its hash suffix.
pub proof fn lemma_report_counts_are_the_accounts_own(
    accounts: Seq<Account>,
    groups: Seq<(String, Vec<(String, &Account)>)>,
    pages: Seq<Vec<(String, u64)>>,
    r: int,
)
    requires
        is_prefix_grouping(accounts, groups),
        0 <= r < breach_rows(groups, pages).len(),
    ensures
        exists|i: int|
            0 <= i < groups.len() && (#[trigger] groups[i]).0@ == hash_prefix(
                breach_rows(groups, pages)[r].0.password@,
            ) && breach_rows(groups, pages)[r].1 == breach_count(
                pages[i]@,
                hash_suffix(breach_rows(groups, pages)[r].0.password@),
            ),
{
    lemma_rows_match(accounts, groups, pages, r);
}

/// Every account of every prefix group with the number of breaches its hash suffix has
/// in that group's page, least exposed first.
pub fn breach_report<'a>(
    groups: &Vec<(String, Vec<(String, &'a Account)>)>,
    pages: &Vec<Vec<(String, u64)>>,
) -> (report: Vec<(&'a Account, u64)>)
    requires
        pages@.len() == groups@.len(),
    ensures
        sorted_by_count(report@),
        report@.to_multiset() == breach_rows(groups@, pages@).to_multiset(),
{
    let mut rows: Vec<(&'a Account, u64)> = Vec::new();
    let mut i: usize = 0;
    while i < groups.len()
        invariant
            i <= groups@.len(),
            pages@.len() == groups@.len(),
            rows@ == breach_rows(groups@.take(i as int), pages@),
        decreases groups@.len() - i,
    {
        let entries = &groups[i].1;
        let page = &pages[i];
        let ghost base = rows@;
        let mut k: usize = 0;
        while k < entries.len()
            invariant
                k <= entries@.len(),
                rows@ == base + group_rows(entries@.take(k as int), page@),
            decreases entries@.len() - k,
        {
            let count = count_for(page, &entries[k].0);
            rows.push((entries[k].1, count));
            assert(group_rows(entries@.take(k + 1), page@) =~= group_rows(entries@.take(k as int), page@).push(
                (entries@[k as int].1, count),
            ));
            k = k + 1;
        }
        assert(entries@.take(entries@.len() as int) =~= entries@);
        assert(groups@.take(i + 1).drop_last() =~= groups@.take(i as int));
        i = i + 1;
    }
    assert(groups@.take(groups@.len() as int) =~= groups@);
    sort_by_count(rows)
}

} // verus!
