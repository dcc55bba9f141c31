//! The budgeting-service side: deriving YNAB transaction payloads — with
//! their deterministic import identifiers — from a batch of canonical bank
//! transactions, and the data the service's endpoints exchange.
//!
//! The import identifier of a transaction is
//! `SB1:<amount text>:<Oslo civil date>:<occurrence counter>`. The
//! occurrence counter is batch-scoped: a running list holds the prefix key
//! of every transaction processed so far (the current one included), and the
//! counter is the number of entries in that list that the current prefix key
//! textually begins. For transactions sharing amount and date this counts
//! 1, 2, 3, ... in batch order; the prefix-match (rather than exact-match)
//! semantics is deliberately preserved from the service's established
//! identifier contract.

use crate::account_config::AccountMapping;
use crate::amount::{milliunits_in_range, milliunits_of, parse_milliunits, wf_decimal};
use crate::sparebanken1::Transaction;
use crate::text::{dec_str, starts_with, u64_to_string};
use vstd::prelude::*;

verus! {

/// The `YYYY-MM-DD` rendering, in the Europe/Oslo civil calendar, of the
/// instant `secs` seconds after the Unix epoch.
pub uninterp spec fn oslo_civil_date(secs: i64) -> Seq<char>;

/// Timestamps the library converts to civil dates: from the Unix epoch up to
/// the last day of year 9999 (whose civil year still has four digits).
pub open spec fn date_in_range(secs: i64) -> bool {
    0 <= secs < 253_402_214_400
}

/// Relies on chrono's `DateTime::from_timestamp` (which returns the UTC
/// instant for any timestamp in range), chrono-tz's timezone conversion for
/// Europe/Oslo (a lookup in the compiled-in timezone database), and chrono's
/// `%Y-%m-%d` formatting: together a pure function of the timestamp.
#[verifier::external_body]
fn oslo_date_string(secs: i64) -> (r: String)
    requires
        date_in_range(secs),
    ensures
        r@ == oslo_civil_date(secs),
{
    let dt = chrono::DateTime::from_timestamp(secs, 0).expect("timestamp in range");
    dt.with_timezone(&chrono_tz::Europe::Oslo).format("%Y-%m-%d").to_string()
}

/// A transaction payload in the shape the budgeting service's batch-create
/// endpoint takes.
#[derive(Debug)]
pub struct CreateYnabTransaction {
    pub date: String,
    pub account_id: String,
    pub amount: i64,
    pub payee_name: String,
    pub cleared: String,
    pub memo: String,
    pub import_id: String,
}

/// What the budgeting service reports for a batch submission: the ids of the
/// transactions it created, and the import ids it recognised as duplicates
/// and skipped.
#[derive(Debug)]
pub struct CreateYnabTransactionResponseData {
    pub transaction_ids: Vec<String>,
    pub duplicate_import_ids: Vec<String>,
}

/// A transaction whose source account key has no entry in the account
/// mapping; fatal for the whole batch.
#[derive(Debug)]
pub struct UnmappedAccountError {
    pub account_key: String,
}

/// A YNAB budget as the budgets endpoint lists it.
#[derive(Debug)]
pub struct Budget {
    pub id: String,
    pub name: String,
}

/// A YNAB account as the accounts endpoint lists it.
#[derive(Debug, Clone)]
pub struct Account {
    pub id: String,
    pub name: String,
    pub closed: bool,
}

// ---- the import identifier derivation ----

/// The amount-and-date prefix key of the `i`-th transaction of the batch.
pub open spec fn import_prefix_at(ts: Seq<Transaction>, i: int) -> Seq<char> {
    "SB1:"@ + ts[i].amount_text@ + ":"@ + oslo_civil_date(ts[i].date)
}

/// The prefix keys of a whole batch, in batch order.
pub open spec fn prefixes_of(ts: Seq<Transaction>) -> Seq<Seq<char>> {
    Seq::new(ts.len(), |i: int| import_prefix_at(ts, i))
}

/// How many of the first `n` keys of `ps` the key `p` textually begins.
pub open spec fn count_prefixed(ps: Seq<Seq<char>>, p: Seq<char>, n: int) -> int
    decreases n,
{
    if n <= 0 {
        0
    } else {
        count_prefixed(ps, p, n - 1) + if p.is_prefix_of(ps[n - 1]) {
            1int
        } else {
            0int
        }
    }
}

/// The occurrence counter of the `i`-th transaction: its prefix key is
/// matched against the running list of keys up to and including position
/// `i`, so the counter is at least 1.
pub open spec fn occurrence_at(ts: Seq<Transaction>, i: int) -> int {
    count_prefixed(prefixes_of(ts), import_prefix_at(ts, i), i + 1)
}

/// The import identifier of the `i`-th transaction:
/// `<prefix key>:<occurrence counter>`.
pub open spec fn import_id_at(ts: Seq<Transaction>, i: int) -> Seq<char> {
    import_prefix_at(ts, i) + ":"@ + dec_str(occurrence_at(ts, i) as nat)
}

/// A transaction the deriver can process: a well-formed decimal amount text
/// whose milliunit value fits an `i64`, and a date in the convertible range.
pub open spec fn txn_processable(t: Transaction) -> bool {
    &&& wf_decimal(t.amount_text@)
    &&& milliunits_in_range(milliunits_of(t.amount_text@))
    &&& date_in_range(t.date)
}

/// Every transaction of the batch is processable.
pub open spec fn batch_processable(ts: Seq<Transaction>) -> bool {
    forall|i: int| 0 <= i < ts.len() ==> txn_processable(#[trigger] ts[i])
}

/// Every transaction's source account key has an entry in the mapping.
pub open spec fn all_accounts_mapped(ts: Seq<Transaction>, m: Map<Seq<char>, Seq<char>>) -> bool {
    forall|i: int| 0 <= i < ts.len() ==> m.contains_key(#[trigger] ts[i].account@)
}

/// Position `i` holds the first transaction whose account key is unmapped.
pub open spec fn first_unmapped(ts: Seq<Transaction>, m: Map<Seq<char>, Seq<char>>, i: int) -> bool {
    &&& 0 <= i < ts.len()
    &&& !m.contains_key(ts[i].account@)
    &&& forall|j: int| 0 <= j < i ==> m.contains_key(#[trigger] ts[j].account@)
}

/// The payload `p` is exactly what the deriver owes for the `i`-th
/// transaction of the batch under mapping `m`.
pub open spec fn payload_correct(
    ts: Seq<Transaction>,
    m: Map<Seq<char>, Seq<char>>,
    i: int,
    p: CreateYnabTransaction,
) -> bool {
    &&& p.date@ == oslo_civil_date(ts[i].date)
    &&& p.account_id@ == m[ts[i].account@]
    &&& p.amount == milliunits_of(ts[i].amount_text@)
    &&& p.payee_name@ == ts[i].payee@
    &&& p.cleared@ == "cleared"@
    &&& p.memo@ == ts[i].description@
    &&& p.import_id@ == import_id_at(ts, i)
}

/// The client for the budgeting service, holding the bearer token, the
/// budget id and the account mapping that the derivation consults.
pub struct YnabClient {
    ynab_token: String,
    ynab_budget: String,
    account_config: AccountMapping,
}

impl YnabClient {
    /// The account mapping the client derives payloads with.
    pub closed spec fn spec_mapping(&self) -> Map<Seq<char>, Seq<char>> {
        self.account_config@
    }

    /// The characters of the held bearer token.
    pub closed spec fn spec_token(&self) -> Seq<char> {
        self.ynab_token@
    }

    /// The characters of the budget id.
    pub closed spec fn spec_budget(&self) -> Seq<char> {
        self.ynab_budget@
    }

    pub fn new(account_config: AccountMapping, ynab_token: String, ynab_budget: String) -> (r: Self)
        ensures
            r.spec_mapping() == account_config@,
            r.spec_token() == ynab_token@,
            r.spec_budget() == ynab_budget@,
    {
        YnabClient { ynab_token, ynab_budget, account_config }
    }

    /// Derives the payload batch: one payload per transaction, in batch
    /// order, each with its import identifier; or the first unmapped account
    /// key, in which case no payload list exists (fail closed, no partial
    /// batch).
    pub fn parse_transactions(&self, transactions: &Vec<Transaction>) -> (r: Result<
        Vec<CreateYnabTransaction>,
        UnmappedAccountError,
    >)
        requires
            batch_processable(transactions@),
        ensures
            r is Ok <==> all_accounts_mapped(transactions@, self.spec_mapping()),
            match r {
                Ok(payloads) => {
                    &&& payloads@.len() == transactions@.len()
                    &&& forall|i: int|
                        0 <= i < transactions@.len() ==> payload_correct(
                            transactions@,
                            self.spec_mapping(),
                            i,
                            #[trigger] payloads@[i],
                        )
                },
                Err(e) => exists|i: int|
                    #[trigger] first_unmapped(transactions@, self.spec_mapping(), i)
                        && e.account_key@ == transactions@[i].account@,
            },
    {
        let ghost ts = transactions@;
        let ghost m = self.spec_mapping();
        let mut out: Vec<CreateYnabTransaction> = Vec::new();
        let mut prefixes: Vec<String> = Vec::new();
        let mut idx: usize = 0;
        while idx < transactions.len()
            invariant
                idx <= ts.len(),
                ts == transactions@,
                m == self.spec_mapping(),
                batch_processable(ts),
                prefixes@.len() == idx,
                forall|j: int| 0 <= j < idx ==> #[trigger] prefixes@[j]@ == import_prefix_at(ts, j),
                out@.len() == idx,
                forall|j: int|
                    0 <= j < idx ==> payload_correct(ts, m, j, #[trigger] out@[j]),
                forall|j: int| 0 <= j < idx ==> m.contains_key(#[trigger] ts[j].account@),
            decreases ts.len() - idx,
        {
            let t = &transactions[idx];
            proof {
                assert(txn_processable(ts[idx as int]));
            }
            let account_id = match self.account_config.get(&t.account) {
                Some(a) => a.clone(),
                None => {
                    proof {
                        assert(first_unmapped(ts, m, idx as int));
                    }
                    return Err(UnmappedAccountError { account_key: t.account.clone() });
                },
            };
            let date_s = oslo_date_string(t.date);

            // the amount-and-date prefix key, pushed onto the running list
            // before counting, so the count includes the current entry
            let mut prefix = String::from_str("SB1:");
            prefix.append(t.amount_text.as_str());
            prefix.append(":");
            prefix.append(date_s.as_str());
            proof {
                assert(prefix@ =~= import_prefix_at(ts, idx as int));
            }
            prefixes.push(prefix.clone());

            let mut count: u64 = 0;
            let mut j: usize = 0;
            while j < prefixes.len()
                invariant
                    ts == transactions@,
                    idx < ts.len(),
                    prefixes@.len() == idx + 1,
                    j <= idx + 1,
                    count <= j,
                    forall|k: int|
                        0 <= k <= idx ==> #[trigger] prefixes@[k]@ == import_prefix_at(ts, k),
                    prefix@ == import_prefix_at(ts, idx as int),
                    count == count_prefixed(prefixes_of(ts), prefix@, j as int),
                decreases idx + 1 - j,
            {
                proof {
                    assert(prefixes_of(ts)[j as int] == import_prefix_at(ts, j as int));
                }
                if starts_with(&prefixes[j], &prefix) {
                    count = count + 1;
                }
                j += 1;
            }
            proof {
                assert(count == occurrence_at(ts, idx as int));
            }

            let mut import_id = prefix.clone();
            import_id.append(":");
            let count_str = u64_to_string(count);
            import_id.append(count_str.as_str());
            proof {
                assert(import_id@ =~= import_id_at(ts, idx as int));
            }

            let amount = parse_milliunits(t.amount_text.as_str());
            out.push(
                CreateYnabTransaction {
                    date: date_s,
                    account_id,
                    amount,
                    payee_name: t.payee.clone(),
                    cleared: String::from_str("cleared"),
                    memo: t.description.clone(),
                    import_id,
                },
            );
            idx += 1;
        }
        Ok(out)
    }
}

/// Keeps the accounts that are open in the budgeting service, in order.
pub fn filter_open_accounts(accounts: &Vec<Account>) -> (r: Vec<Account>)
    ensures
        r@ == accounts@.filter(|a: Account| !a.closed),
{
    let ghost pred = |a: Account| !a.closed;
    let mut r: Vec<Account> = Vec::new();
    let mut i: usize = 0;
    proof {
        reveal(Seq::filter);
        assert(accounts@.subrange(0, 0) =~= Seq::<Account>::empty());
    }
    while i < accounts.len()
        invariant
            i <= accounts@.len(),
            r@ == accounts@.subrange(0, i as int).filter(pred),
            pred == (|a: Account| !a.closed),
        decreases accounts@.len() - i,
    {
        let a = &accounts[i];
        if !a.closed {
            r.push(Account { id: a.id.clone(), name: a.name.clone(), closed: a.closed });
        }
        proof {
            reveal(Seq::filter);
            assert(accounts@.subrange(0, i + 1).drop_last() =~= accounts@.subrange(0, i as int));
            assert(accounts@.subrange(0, i + 1).last() == accounts@[i as int]);
        }
        i += 1;
    }
    proof {
        assert(accounts@.subrange(0, accounts@.len() as int) =~= accounts@);
    }
    r
}

/// The budget a selection picks: with exactly one budget on the list that
/// budget, whatever the choice; otherwise the `choice`-th budget, counted
/// from 1, or nothing when the choice is out of range.
pub fn pick_budget<'a>(budgets: &'a Vec<Budget>, choice: usize) -> (r: Option<&'a Budget>)
    ensures
        match r {
            Some(b) => (budgets@.len() == 1 && *b == budgets@[0]) || (budgets@.len() != 1 && 1
                <= choice <= budgets@.len() && *b == budgets@[choice - 1]),
            None => budgets@.len() != 1 && !(1 <= choice <= budgets@.len()),
        },
{
    if budgets.len() == 1 {
        Some(&budgets[0])
    } else if 1 <= choice && choice <= budgets.len() {
        Some(&budgets[choice - 1])
    } else {
        None
    }
}

// ---- laws of the derivation ----

proof fn lemma_count_prefixed_nonneg(ps: Seq<Seq<char>>, p: Seq<char>, n: int)
    ensures
        count_prefixed(ps, p, n) >= 0,
    decreases n,
{
    if n > 0 {
        lemma_count_prefixed_nonneg(ps, p, n - 1);
    }
}

proof fn lemma_count_prefixed_flat(ps: Seq<Seq<char>>, p: Seq<char>, a: int, b: int)
    requires
        0 <= a <= b,
        forall|k: int| a <= k < b ==> !p.is_prefix_of(#[trigger] ps[k]),
    ensures
        count_prefixed(ps, p, b) == count_prefixed(ps, p, a),
    decreases b - a,
{
    if b > a {
        lemma_count_prefixed_flat(ps, p, a, b - 1);
    }
}

/// A transaction whose prefix key begins no earlier key in the batch gets
/// occurrence counter 1.
pub proof fn lemma_first_occurrence(ts: Seq<Transaction>, i: int)
    requires
        0 <= i < ts.len(),
        forall|k: int|
            0 <= k < i ==> !import_prefix_at(ts, i).is_prefix_of(
                #[trigger] import_prefix_at(ts, k),
            ),
    ensures
        occurrence_at(ts, i) == 1,
        import_id_at(ts, i) == import_prefix_at(ts, i) + ":"@ + dec_str(1),
{
    let ps = prefixes_of(ts);
    let p = import_prefix_at(ts, i);
    assert(p.is_prefix_of(ps[i])) by {
        assert(ps[i] == p);
        assert(p =~= p.subrange(0, p.len() as int));
    }
    assert(forall|k: int| 0 <= k < i ==> !p.is_prefix_of(#[trigger] ps[k]));
    lemma_count_prefixed_flat(ps, p, 0, i);
}

/// Two transactions of one batch with the same amount text and the same
/// Oslo civil date share their prefix key, and when no transaction between
/// them carries a key that the shared key begins, the occurrence counter of
/// the later one is exactly one more than that of the earlier one: their
/// import identifiers differ only in the trailing counter.
pub proof fn lemma_occurrence_counter_increments(ts: Seq<Transaction>, i: int, j: int)
    requires
        0 <= i < j < ts.len(),
        ts[i].amount_text@ == ts[j].amount_text@,
        oslo_civil_date(ts[i].date) == oslo_civil_date(ts[j].date),
        forall|k: int|
            i < k < j ==> !import_prefix_at(ts, j).is_prefix_of(
                #[trigger] import_prefix_at(ts, k),
            ),
    ensures
        import_prefix_at(ts, i) == import_prefix_at(ts, j),
        occurrence_at(ts, j) == occurrence_at(ts, i) + 1,
        import_id_at(ts, i) == import_prefix_at(ts, i) + ":"@ + dec_str(
            occurrence_at(ts, i) as nat,
        ),
        import_id_at(ts, j) == import_prefix_at(ts, i) + ":"@ + dec_str(
            (occurrence_at(ts, i) + 1) as nat,
        ),
{
    let ps = prefixes_of(ts);
    let p = import_prefix_at(ts, j);
    assert(import_prefix_at(ts, i) =~= p);
    assert(p.is_prefix_of(ps[j])) by {
        assert(ps[j] == p);
        assert(p =~= p.subrange(0, p.len() as int));
    }
    lemma_count_prefixed_flat(ps, p, i + 1, j);
    assert(count_prefixed(ps, p, j + 1) == count_prefixed(ps, p, j) + 1);
    lemma_count_prefixed_nonneg(ps, p, i + 1);
}

proof fn lemma_count_prefixed_congruent(ps1: Seq<Seq<char>>, ps2: Seq<Seq<char>>, p: Seq<char>, n: int)
    requires
        forall|k: int| 0 <= k < n ==> #[trigger] ps1[k] == ps2[k],
    ensures
        count_prefixed(ps1, p, n) == count_prefixed(ps2, p, n),
    decreases n,
{
    if n > 0 {
        lemma_count_prefixed_congruent(ps1, ps2, p, n - 1);
    }
}

/// An import identifier is a function of the ordered batch contents up to
/// and including its own position: extending the batch afterwards never
/// changes identifiers already derived.
pub proof fn lemma_import_id_prefix_stable(ts1: Seq<Transaction>, ts2: Seq<Transaction>, i: int)
    requires
        0 <= i < ts1.len(),
        i < ts2.len(),
        ts1.subrange(0, i + 1) == ts2.subrange(0, i + 1),
    ensures
        import_id_at(ts1, i) == import_id_at(ts2, i),
{
    assert(forall|k: int|
        0 <= k <= i ==> #[trigger] ts1[k] == ts2[k]) by {
        assert(forall|k: int|
            0 <= k <= i ==> ts1.subrange(0, i + 1)[k] == #[trigger] ts1[k] && ts2.subrange(
                0,
                i + 1,
            )[k] == ts2[k]);
    }
    assert(forall|k: int|
        0 <= k <= i ==> #[trigger] prefixes_of(ts1)[k] == prefixes_of(ts2)[k]);
    lemma_count_prefixed_congruent(
        prefixes_of(ts1),
        prefixes_of(ts2),
        import_prefix_at(ts1, i),
        i + 1,
    );
}

/// An amount-and-date prefix key can textually begin another key with an
/// equally long date only when the two keys are equal: well-formed amount
/// texts hold no `':'`, so the separators of the two keys must line up. On
/// batches of well-formed amounts whose civil dates share one length (as
/// rendered Oslo dates do), the prefix-match occurrence counting therefore
/// coincides with exact matching.
pub proof fn lemma_prefix_key_collision_is_equality(
    a1: Seq<char>,
    d1: Seq<char>,
    a2: Seq<char>,
    d2: Seq<char>,
)
    requires
        wf_decimal(a1),
        wf_decimal(a2),
        d1.len() == d2.len(),
        ("SB1:"@ + a1 + ":"@ + d1).is_prefix_of("SB1:"@ + a2 + ":"@ + d2),
    ensures
        a1 == a2,
        d1 == d2,
{
    reveal_strlit("SB1:");
    reveal_strlit(":");
    crate::amount::lemma_wf_decimal_no_colon(a1);
    crate::amount::lemma_wf_decimal_no_colon(a2);
    let p1 = "SB1:"@ + a1 + ":"@ + d1;
    let p2 = "SB1:"@ + a2 + ":"@ + d2;
    assert(forall|k: int| 0 <= k < p1.len() ==> p1[k] == #[trigger] p2[k]) by {
        assert(p1 =~= p2.subrange(0, p1.len() as int));
    }
    assert(a1.len() <= a2.len()) by {
        assert(p1.len() <= p2.len());
    }
    assert(a1.len() == a2.len()) by {
        if a1.len() < a2.len() {
            assert(p1[4 + a1.len() as int] == ':');
            assert(p2[4 + a1.len() as int] == a2[a1.len() as int]);
        }
    }
    assert forall|k: int| 0 <= k < a1.len() implies a1[k] == a2[k] by {
        assert(p1[4 + k] == a1[k]);
        assert(p2[4 + k] == a2[k]);
        assert(p1[4 + k] == p2[4 + k]);
    }
    assert(a1 =~= a2);
    assert forall|k: int| 0 <= k < d1.len() implies d1[k] == d2[k] by {
        assert(p1[5 + a1.len() as int + k] == d1[k]);
        assert(p2[5 + a1.len() as int + k] == d2[k]);
        assert(p1[5 + a1.len() as int + k] == p2[5 + a1.len() as int + k]);
    }
    assert(d1 =~= d2);
}

/// On a batch of well-formed amount texts whose civil dates all have one
/// length, the occurrence counter counts exact repeats: between two
/// transactions with the same amount text and the same civil date and with
/// no such repeat in between, the counter of the later one is exactly one
/// more than the counter of the earlier one.
pub proof fn lemma_next_repeat_increments(ts: Seq<Transaction>, i: int, j: int)
    requires
        0 <= i < j < ts.len(),
        forall|k: int| i < k <= j ==> wf_decimal((#[trigger] ts[k]).amount_text@),
        forall|k: int|
            i < k < j ==> oslo_civil_date((#[trigger] ts[k]).date).len() == oslo_civil_date(
                ts[j].date,
            ).len(),
        ts[i].amount_text@ == ts[j].amount_text@,
        oslo_civil_date(ts[i].date) == oslo_civil_date(ts[j].date),
        forall|k: int|
            i < k < j ==> !((#[trigger] ts[k]).amount_text@ == ts[j].amount_text@
                && oslo_civil_date(ts[k].date) == oslo_civil_date(ts[j].date)),
    ensures
        occurrence_at(ts, j) == occurrence_at(ts, i) + 1,
{
    assert forall|k: int| i < k < j implies !import_prefix_at(ts, j).is_prefix_of(
        #[trigger] import_prefix_at(ts, k),
    ) by {
        if import_prefix_at(ts, j).is_prefix_of(import_prefix_at(ts, k)) {
            lemma_prefix_key_collision_is_equality(
                ts[j].amount_text@,
                oslo_civil_date(ts[j].date),
                ts[k].amount_text@,
                oslo_civil_date(ts[k].date),
            );
        }
    }
    lemma_occurrence_counter_increments(ts, i, j);
}

/// Re-running the deriver on an identical batch produces byte-identical
/// payloads: any two payload lists that meet the deriver's contract for the
/// same batch and mapping agree on every field of every position.
pub proof fn lemma_deriver_deterministic(
    ts: Seq<Transaction>,
    m: Map<Seq<char>, Seq<char>>,
    ps1: Seq<CreateYnabTransaction>,
    ps2: Seq<CreateYnabTransaction>,
)
    requires
        ps1.len() == ts.len(),
        ps2.len() == ts.len(),
        forall|i: int| 0 <= i < ts.len() ==> payload_correct(ts, m, i, #[trigger] ps1[i]),
        forall|i: int| 0 <= i < ts.len() ==> payload_correct(ts, m, i, #[trigger] ps2[i]),
    ensures
        forall|i: int|
            0 <= i < ts.len() ==> #[trigger] ps1[i].import_id@ == ps2[i].import_id@ && ps1[i].date@
                == ps2[i].date@ && ps1[i].account_id@ == ps2[i].account_id@ && ps1[i].amount
                == ps2[i].amount && ps1[i].payee_name@ == ps2[i].payee_name@ && ps1[i].memo@
                == ps2[i].memo@,
{
    assert forall|i: int| 0 <= i < ts.len() implies #[trigger] ps1[i].import_id@
        == ps2[i].import_id@ && ps1[i].date@ == ps2[i].date@ && ps1[i].account_id@
        == ps2[i].account_id@ && ps1[i].amount == ps2[i].amount && ps1[i].payee_name@
        == ps2[i].payee_name@ && ps1[i].memo@ == ps2[i].memo@ by {
        assert(payload_correct(ts, m, i, ps1[i]));
        assert(payload_correct(ts, m, i, ps2[i]));
    }
}

/// An empty batch is trivially fully mapped: the deriver returns an empty
/// payload list and no error.
pub proof fn lemma_empty_batch_derives(ts: Seq<Transaction>, m: Map<Seq<char>, Seq<char>>)
    requires
        ts.len() == 0,
    ensures
        all_accounts_mapped(ts, m),
        batch_processable(ts),
{
}

} // verus!
