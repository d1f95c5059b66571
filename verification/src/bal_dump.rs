//! A human-readable dump of a block access list, line by line: accounts in address order, each
//! with its nonce, balance and code writes and its storage slots in slot order.

use vstd::prelude::*;
use crate::bal_account::{AccountBalView, AccountInfoBal, AccountInfoBalView, Bal, bytes_for_hash, histories};
use crate::bal::StorageBal;
use crate::primitives::{Address, B256, Word};
use crate::vecmap::{keys_sorted, lemma_sorted_listing, sorted_listing};

verus! {

/// What `format!("Total accounts: {}", n)` gives.
pub uninterp spec fn total_accounts_line(n: usize) -> Seq<char>;

/// What `format!("Account #{idx} - Address: {address:?}")` gives for the `alloy` address.
pub uninterp spec fn account_line(idx: usize, address: Address) -> Seq<char>;

/// What `format!("      [{index}] -> {nonce}")` gives.
pub uninterp spec fn nonce_write_line(index: u64, nonce: u64) -> Seq<char>;

/// What `format!("      [{index}] -> {balance}")` gives for the balance as a `U256`.
pub uninterp spec fn balance_write_line(index: u64, balance: Word) -> Seq<char>;

/// What `format!("      [{}] -> hash: {:?}, size: {} bytes", index, hash, size)` gives for the
/// `alloy` hash.
pub uninterp spec fn code_write_line(index: u64, hash: B256, size: usize) -> Seq<char>;

/// What `format!("    Total slots: {}", n)` gives.
pub uninterp spec fn slot_count_line(n: usize) -> Seq<char>;

/// What `format!("    Slot: {:#x}", slot)` gives for the slot as a `U256`.
pub uninterp spec fn slot_line(slot: Word) -> Seq<char>;

/// What `format!("        [{index}] -> {value:?}")` gives for the value as a `U256`.
pub uninterp spec fn slot_write_line(index: u64, value: Word) -> Seq<char>;

/// Formats the account count with `format!`; the text is named by [`total_accounts_line`].
#[verifier::external_body]
fn fmt_total_accounts(n: usize) -> (r: String)
    ensures
        r@ == total_accounts_line(n),
{
    format!("Total accounts: {}", n)
}

/// Formats an account heading with `format!` and the `Debug` of `alloy_primitives::Address`;
/// the text is named by [`account_line`].
#[verifier::external_body]
fn fmt_account(idx: usize, address: Address) -> (r: String)
    ensures
        r@ == account_line(idx, address),
{
    let mut b = [0u8; 20];
    b[0..8].copy_from_slice(&address.hi.to_be_bytes());
    b[8..16].copy_from_slice(&address.mid.to_be_bytes());
    b[16..20].copy_from_slice(&address.lo.to_be_bytes());
    format!("Account #{idx} - Address: {:?}", alloy_primitives::Address::from(b))
}

/// Formats a nonce write with `format!`; the text is named by [`nonce_write_line`].
#[verifier::external_body]
fn fmt_nonce_write(index: u64, nonce: u64) -> (r: String)
    ensures
        r@ == nonce_write_line(index, nonce),
{
    format!("      [{index}] -> {nonce}")
}

/// Formats a balance write with `format!` and the `Display` of `alloy_primitives::U256`; the
/// text is named by [`balance_write_line`].
#[verifier::external_body]
fn fmt_balance_write(index: u64, balance: Word) -> (r: String)
    ensures
        r@ == balance_write_line(index, balance),
{
    let v = alloy_primitives::U256::from_limbs([balance.l0, balance.l1, balance.l2, balance.l3]);
    format!("      [{index}] -> {v}")
}

/// Formats a code write with `format!` and the `Debug` of `alloy_primitives::B256`; the text is
/// named by [`code_write_line`].
#[verifier::external_body]
fn fmt_code_write(index: u64, hash: B256, size: usize) -> (r: String)
    ensures
        r@ == code_write_line(index, hash, size),
{
    let mut b = [0u8; 32];
    b[0..8].copy_from_slice(&hash.w0.to_be_bytes());
    b[8..16].copy_from_slice(&hash.w1.to_be_bytes());
    b[16..24].copy_from_slice(&hash.w2.to_be_bytes());
    b[24..32].copy_from_slice(&hash.w3.to_be_bytes());
    format!("      [{}] -> hash: {:?}, size: {} bytes", index, alloy_primitives::B256::from(b), size)
}

/// Formats the slot count with `format!`; the text is named by [`slot_count_line`].
#[verifier::external_body]
fn fmt_slot_count(n: usize) -> (r: String)
    ensures
        r@ == slot_count_line(n),
{
    format!("    Total slots: {}", n)
}

/// Formats a slot heading with `format!` and the alternate `LowerHex` of
/// `alloy_primitives::U256`; the text is named by [`slot_line`].
#[verifier::external_body]
fn fmt_slot(slot: Word) -> (r: String)
    ensures
        r@ == slot_line(slot),
{
    let v = alloy_primitives::U256::from_limbs([slot.l0, slot.l1, slot.l2, slot.l3]);
    format!("    Slot: {v:#x}")
}

/// Formats a slot write with `format!` and the `Debug` of `alloy_primitives::U256`; the text is
/// named by [`slot_write_line`].
#[verifier::external_body]
fn fmt_slot_write(index: u64, value: Word) -> (r: String)
    ensures
        r@ == slot_write_line(index, value),
{
    let v = alloy_primitives::U256::from_limbs([value.l0, value.l1, value.l2, value.l3]);
    format!("        [{index}] -> {v:?}")
}

/// The lines of `q`'s items, item by item.
pub open spec fn flat_lines<A>(q: Seq<A>, g: spec_fn(int, A) -> Seq<Seq<char>>) -> Seq<Seq<char>>
    decreases q.len(),
{
    if q.len() == 0 {
        Seq::empty()
    } else {
        flat_lines(q.drop_last(), g) + g(q.len() - 1, q.last())
    }
}

proof fn lemma_flat_lines_step<A>(q: Seq<A>, g: spec_fn(int, A) -> Seq<Seq<char>>, i: int)
    requires
        0 <= i < q.len(),
    ensures
        flat_lines(q.take(i + 1), g) == flat_lines(q.take(i), g) + g(i, q[i]),
{
    assert(q.take(i + 1).drop_last() =~= q.take(i));
}

/// The lines of an item's writes: `none` when there are none, else `some` and a line per write.
pub open spec fn writes_lines<T>(
    writes: Seq<(u64, T)>,
    none: Seq<char>,
    some: Seq<char>,
    line: spec_fn((u64, T)) -> Seq<char>,
) -> Seq<Seq<char>> {
    if writes.len() == 0 {
        seq![none]
    } else {
        seq![some] + writes.map_values(line)
    }
}

/// A nonce write's line.
pub open spec fn nonce_line_of() -> spec_fn((u64, u64)) -> Seq<char> {
    |w: (u64, u64)| nonce_write_line(w.0, w.1)
}

/// A balance write's line.
pub open spec fn balance_line_of() -> spec_fn((u64, Word)) -> Seq<char> {
    |w: (u64, Word)| balance_write_line(w.0, w.1)
}

/// A code write's line, with the size of the code kept for its hash.
pub open spec fn code_line_of(code_bytes: Map<B256, Seq<u8>>) -> spec_fn((u64, B256)) -> Seq<char> {
    |w: (u64, B256)| code_write_line(w.0, w.1, bytes_for_hash(code_bytes, w.1).len() as usize)
}

/// A slot write's line.
pub open spec fn slot_write_line_of() -> spec_fn((u64, Word)) -> Seq<char> {
    |w: (u64, Word)| slot_write_line(w.0, w.1)
}

/// The account-info lines: nonce, balance and code writes.
pub open spec fn info_lines(info: AccountInfoBalView) -> Seq<Seq<char>> {
    writes_lines(info.nonce, "    Nonce: (read-only, no writes)"@, "    Nonce writes:"@, nonce_line_of())
        + writes_lines(info.balance, "    Balance: (read-only, no writes)"@, "    Balance writes:"@, balance_line_of())
        + writes_lines(info.code, "    Code: (read-only, no writes)"@, "    Code writes:"@, code_line_of(info.code_bytes))
}

/// The lines of one slot: its heading, then its writes.
pub open spec fn slot_lines(slot: Word, writes: Seq<(u64, Word)>) -> Seq<Seq<char>> {
    seq![slot_line(slot)] + writes_lines(writes, "      (read-only, no writes)"@, "      Writes:"@, slot_write_line_of())
}

/// Each slot's lines.
pub open spec fn slots_of(storage: Map<Word, Seq<(u64, Word)>>) -> spec_fn(int, Word) -> Seq<Seq<char>> {
    |i: int, k: Word| slot_lines(k, storage[k])
}

/// The storage lines: the slot count and each slot in slot order, or a note that there are none.
pub open spec fn storage_lines(storage: Map<Word, Seq<(u64, Word)>>) -> Seq<Seq<char>> {
    seq!["  Storage:"@] + if storage.dom().len() == 0 {
        seq!["    (no storage slots)"@]
    } else {
        seq![slot_count_line(storage.dom().len() as usize)] + flat_lines(
            sorted_listing(storage.dom()),
            slots_of(storage),
        )
    }
}

/// The lines of the account listed `idx`-th.
pub open spec fn account_lines(idx: int, address: Address, account: AccountBalView) -> Seq<Seq<char>> {
    seq![account_line(idx as usize, address), "  Account Info:"@] + info_lines(account.account_info)
        + storage_lines(account.storage) + seq![""@]
}

/// Each account's lines, by its place in address order.
pub open spec fn accounts_of(accounts: Map<Address, AccountBalView>) -> spec_fn(int, Address) -> Seq<Seq<char>> {
    |i: int, a: Address| account_lines(i, a, accounts[a])
}

/// The dump of a block access list: a heading with the account count, then each account in
/// address order and a closing line, or a note that the list is empty.
pub open spec fn spec_dump(accounts: Map<Address, AccountBalView>) -> Seq<Seq<char>> {
    let head = seq!["=== Block Access List (BAL) ==="@, total_accounts_line(accounts.dom().len() as usize), ""@];
    if accounts.dom().len() == 0 {
        head + seq!["(empty)"@]
    } else {
        head + flat_lines(sorted_listing(accounts.dom()), accounts_of(accounts))
            + seq!["=== End of BAL ==="@]
    }
}

/// The text of each line.
pub open spec fn texts(lines: Seq<String>) -> Seq<Seq<char>> {
    lines.map_values(|s: String| s@)
}

fn push_line(lines: &mut Vec<String>, line: String)
    ensures
        texts(final(lines)@) == texts(old(lines)@).push(line@),
{
    lines.push(line);
    assert(texts(lines@) =~= texts(old(lines)@).push(line@));
}

fn push_nonce_writes(lines: &mut Vec<String>, writes: &Vec<(u64, u64)>)
    ensures
        texts(final(lines)@) == texts(old(lines)@) + writes_lines(
            writes@,
            "    Nonce: (read-only, no writes)"@,
            "    Nonce writes:"@,
            nonce_line_of(),
        ),
{
    if writes.len() == 0 {
        push_line(lines, "    Nonce: (read-only, no writes)".to_owned());
        return;
    }
    push_line(lines, "    Nonce writes:".to_owned());
    let ghost base = texts(lines@);
    let mut i: usize = 0;
    while i < writes.len()
        invariant
            0 <= i <= writes@.len(),
            texts(lines@) == base + writes@.take(i as int).map_values(nonce_line_of()),
        decreases writes@.len() - i,
    {
        let (index, nonce) = writes[i];
        push_line(lines, fmt_nonce_write(index, nonce));
        i = i + 1;
        assert(writes@.take(i as int).map_values(nonce_line_of()) =~= writes@.take(i - 1).map_values(
            nonce_line_of(),
        ).push(nonce_line_of()(writes@[i - 1])));
    }
    assert(writes@.take(writes@.len() as int) =~= writes@);
}

fn push_balance_writes(lines: &mut Vec<String>, writes: &Vec<(u64, Word)>)
    ensures
        texts(final(lines)@) == texts(old(lines)@) + writes_lines(
            writes@,
            "    Balance: (read-only, no writes)"@,
            "    Balance writes:"@,
            balance_line_of(),
        ),
{
    if writes.len() == 0 {
        push_line(lines, "    Balance: (read-only, no writes)".to_owned());
        return;
    }
    push_line(lines, "    Balance writes:".to_owned());
    let ghost base = texts(lines@);
    let mut i: usize = 0;
    while i < writes.len()
        invariant
            0 <= i <= writes@.len(),
            texts(lines@) == base + writes@.take(i as int).map_values(balance_line_of()),
        decreases writes@.len() - i,
    {
        let (index, balance) = writes[i];
        push_line(lines, fmt_balance_write(index, balance));
        i = i + 1;
        assert(writes@.take(i as int).map_values(balance_line_of()) =~= writes@.take(i - 1).map_values(
            balance_line_of(),
        ).push(balance_line_of()(writes@[i - 1])));
    }
    assert(writes@.take(writes@.len() as int) =~= writes@);
}

fn push_slot_writes(lines: &mut Vec<String>, writes: &Vec<(u64, Word)>)
    ensures
        texts(final(lines)@) == texts(old(lines)@) + writes_lines(
            writes@,
            "      (read-only, no writes)"@,
            "      Writes:"@,
            slot_write_line_of(),
        ),
{
    if writes.len() == 0 {
        push_line(lines, "      (read-only, no writes)".to_owned());
        return;
    }
    push_line(lines, "      Writes:".to_owned());
    let ghost base = texts(lines@);
    let mut i: usize = 0;
    while i < writes.len()
        invariant
            0 <= i <= writes@.len(),
            texts(lines@) == base + writes@.take(i as int).map_values(slot_write_line_of()),
        decreases writes@.len() - i,
    {
        let (index, value) = writes[i];
        push_line(lines, fmt_slot_write(index, value));
        i = i + 1;
        assert(writes@.take(i as int).map_values(slot_write_line_of()) =~= writes@.take(i - 1).map_values(
            slot_write_line_of(),
        ).push(slot_write_line_of()(writes@[i - 1])));
    }
    assert(writes@.take(writes@.len() as int) =~= writes@);
}

fn push_code_writes(lines: &mut Vec<String>, info: &AccountInfoBal)
    ensures
        texts(final(lines)@) == texts(old(lines)@) + writes_lines(
            info@.code,
            "    Code: (read-only, no writes)"@,
            "    Code writes:"@,
            code_line_of(info@.code_bytes),
        ),
{
    let writes = &info.code.writes;
    if writes.len() == 0 {
        push_line(lines, "    Code: (read-only, no writes)".to_owned());
        return;
    }
    push_line(lines, "    Code writes:".to_owned());
    let ghost base = texts(lines@);
    let ghost f = code_line_of(info@.code_bytes);
    let mut i: usize = 0;
    while i < writes.len()
        invariant
            writes == &info.code.writes,
            f == code_line_of(info@.code_bytes),
            0 <= i <= writes@.len(),
            texts(lines@) == base + writes@.take(i as int).map_values(f),
        decreases writes@.len() - i,
    {
        let (index, hash) = writes[i];
        let size: usize = match info.code_bytes.get(&hash) {
            Some(code) => code.bytes.len(),
            None => 0,
        };
        proof {
            assert(size == bytes_for_hash(info@.code_bytes, hash).len());
        }
        push_line(lines, fmt_code_write(index, hash, size));
        i = i + 1;
        assert(writes@.take(i as int).map_values(f) =~= writes@.take(i - 1).map_values(f).push(f(writes@[i - 1])));
    }
    assert(writes@.take(writes@.len() as int) =~= writes@);
}

fn push_storage_lines(lines: &mut Vec<String>, storage: &StorageBal)
    ensures
        texts(final(lines)@) == texts(old(lines)@) + storage_lines(histories(*storage)),
{
    let ghost h = histories(*storage);
    let ghost base0 = texts(lines@);
    push_line(lines, "  Storage:".to_owned());
    let keys = storage.storage.sorted_keys();
    proof {
        assert(h.dom() =~= storage.storage@.dom());
        lemma_sorted_listing(keys@);
    }
    if keys.len() == 0 {
        push_line(lines, "    (no storage slots)".to_owned());
        assert(texts(lines@) =~= base0 + storage_lines(h));
        return;
    }
    push_line(lines, fmt_slot_count(keys.len()));
    let ghost base = texts(lines@);
    let mut i: usize = 0;
    while i < keys.len()
        invariant
            h == histories(*storage),
            keys@.to_set() == h.dom(),
            0 <= i <= keys@.len(),
            texts(lines@) == base + flat_lines(keys@.take(i as int), slots_of(h)),
        decreases keys@.len() - i,
    {
        let k = keys[i];
        proof {
            assert(keys@.to_set().contains(keys@[i as int]));
            lemma_flat_lines_step(keys@, slots_of(h), i as int);
        }
        push_line(lines, fmt_slot(k));
        match storage.storage.get(&k) {
            Some(w) => {
                push_slot_writes(lines, &w.writes);
            },
            None => {
                assert(false);
            },
        }
        i = i + 1;
    }
    assert(keys@.take(keys@.len() as int) =~= keys@);
    assert(texts(lines@) =~= base0 + storage_lines(h));
}

/// The dump of `bal`, line by line (see [`spec_dump`]): accounts in address order, and within
/// an account its nonce, balance and code writes as listed and its storage slots in slot order.
pub fn dump_lines(bal: &Bal) -> (r: Vec<String>)
    ensures
        texts(r@) == spec_dump(bal.accounts_view()),
{
    let ghost v = bal.accounts_view();
    let mut lines: Vec<String> = Vec::new();
    proof {
        assert(v.dom() =~= bal.accounts@.dom());
        assert(texts(lines@) =~= Seq::<Seq<char>>::empty());
    }
    push_line(&mut lines, "=== Block Access List (BAL) ===".to_owned());
    push_line(&mut lines, fmt_total_accounts(bal.accounts.len()));
    push_line(&mut lines, "".to_owned());
    if bal.accounts.len() == 0 {
        push_line(&mut lines, "(empty)".to_owned());
        assert(texts(lines@) =~= spec_dump(v));
        return lines;
    }
    let keys = bal.accounts.sorted_keys();
    proof {
        lemma_sorted_listing(keys@);
    }
    let ghost base = texts(lines@);
    let mut i: usize = 0;
    while i < keys.len()
        invariant
            v == bal.accounts_view(),
            keys@.to_set() == v.dom(),
            0 <= i <= keys@.len(),
            texts(lines@) == base + flat_lines(keys@.take(i as int), accounts_of(v)),
        decreases keys@.len() - i,
    {
        let address = keys[i];
        proof {
            assert(keys@.to_set().contains(keys@[i as int]));
            lemma_flat_lines_step(keys@, accounts_of(v), i as int);
        }
        match bal.accounts.get(&address) {
            Some(account) => {
                let ghost before = texts(lines@);
                push_line(&mut lines, fmt_account(i, address));
                push_line(&mut lines, "  Account Info:".to_owned());
                push_nonce_writes(&mut lines, &account.account_info.nonce.writes);
                push_balance_writes(&mut lines, &account.account_info.balance.writes);
                push_code_writes(&mut lines, &account.account_info);
                push_storage_lines(&mut lines, &account.storage);
                push_line(&mut lines, "".to_owned());
                assert(texts(lines@) =~= before + account_lines(i as int, address, v[address]));
            },
            None => {
                assert(false);
            },
        }
        i = i + 1;
    }
    push_line(&mut lines, "=== End of BAL ===".to_owned());
    assert(keys@.take(keys@.len() as int) =~= keys@);
    assert(texts(lines@) =~= spec_dump(v));
    lines
}

} // verus!
