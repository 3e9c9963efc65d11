//! Accounts and their characters.

use vstd::prelude::*;

use crate::persistence::db::{Db, DbView};
use crate::persistence::ids::new_id;
use crate::persistence::market::{market_sound, order_ok, promised, DbError};
use crate::persistence::purse::{
    find_character, gold_of, has_character, is_character, ledger_gold_in_tx, ledgered, lemma_ledgered,
    purse_gold, supply_gap, wealth,
};
use crate::persistence::rows::{
    Account, AccountRecord, AccountRecordView, AccountView, Character, CharacterRecord, CharacterRecordView,
    CharacterView,
};
use crate::persistence::warehouse::{stock, StockKey};
use crate::table::{find, lemma_find, lemma_find_is, lemma_sum_push, Row};
use crate::text::same;
use crate::util::now_secs;

verus! {

/// What a new character's purse holds.
pub const STARTING_GOLD: i64 = 500;

pub open spec fn has_email(email: Seq<char>) -> spec_fn(AccountRecordView) -> bool {
    |a: AccountRecordView| a.account.email == email
}

pub open spec fn is_account_id(id: Seq<char>) -> spec_fn(AccountRecordView) -> bool {
    |a: AccountRecordView| a.account.id == id
}

pub open spec fn is_character_of(account: Seq<char>) -> spec_fn(CharacterRecordView) -> bool {
    |c: CharacterRecordView| c.character.account_id == account
}

/// What opening an account asks for.
pub struct Opening {
    pub email: Seq<char>,
    pub pw_hash: Seq<char>,
    pub role: Seq<char>,
    pub name: Seq<char>,
    pub x: int,
    pub y: int,
    pub hp: int,
}

/// The account that is opened.
pub open spec fn opened_account(o: Opening, id: Seq<char>) -> AccountView {
    AccountView { id, email: o.email, pw_hash: o.pw_hash, role: o.role }
}

/// The character that comes with it, outside any district.
pub open spec fn opened_character(o: Opening, account: Seq<char>, id: Seq<char>) -> CharacterView {
    CharacterView { id, account_id: account, name: o.name, x: o.x, y: o.y, hp: o.hp, district: Seq::empty() }
}

/// The state after an account is opened. The starting purse is gold made from nothing, so the ledger
/// records it.
pub open spec fn opened(s: DbView, o: Opening, account: Seq<char>, character: Seq<char>, now: int) -> DbView {
    DbView {
        accounts: s.accounts.push(
            AccountRecordView { account: opened_account(o, account), last_login: now },
        ),
        characters: s.characters.push(
            CharacterRecordView {
                character: opened_character(o, account, character),
                gold: STARTING_GOLD as int,
                last_seen: now,
                respawn_structure_id: None,
            },
        ),
        ledger: ledgered(s.ledger, character, STARTING_GOLD as int, "character_start"@, now),
        ..s
    }
}

/// A new character only adds its purse: nobody else's changes, the ledger covers it, and the market
/// stays sound.
pub proof fn law_opening_is_ledgered(s: DbView, o: Opening, account: Seq<char>, character: Seq<char>, now: int)
    ensures
        ({
            let t = opened(s, o, account, character, now);
            &&& supply_gap(t) == supply_gap(s)
            &&& wealth(t) == wealth(s) + STARTING_GOLD
            &&& has_character(t.characters, character)
            &&& forall|x: Seq<char>| has_character(s.characters, x) ==> #[trigger] has_character(t.characters, x)
            &&& forall|x: Seq<char>|
                has_character(s.characters, x) ==> #[trigger] gold_of(t.characters, x) == gold_of(s.characters, x)
            &&& market_sound(s) && wealth(s) + STARTING_GOLD <= i64::MAX ==> market_sound(t)
        }),
{
    let t = opened(s, o, account, character, now);
    let row = t.characters[s.characters.len() as int];
    lemma_sum_push(s.characters, purse_gold(), row);
    lemma_ledgered(s.ledger, character, STARTING_GOLD as int, "character_start"@, now);
    assert forall|x: Seq<char>| has_character(s.characters, x) implies #[trigger] has_character(t.characters, x)
        && gold_of(t.characters, x) == gold_of(s.characters, x) by {
        lemma_pushed_character(s.characters, row, x);
    }
    assert forall|x: Seq<char>| has_character(s.characters, x) implies #[trigger] gold_of(t.characters, x) == gold_of(
        s.characters,
        x,
    ) by {
        lemma_pushed_character(s.characters, row, x);
    }
    lemma_find(t.characters, is_character(character));
    if find(t.characters, is_character(character)) == t.characters.len() {
        assert(!is_character(character)(t.characters[s.characters.len() as int]));
    }
    if market_sound(s) && wealth(s) + STARTING_GOLD <= i64::MAX {
        assert forall|i: int| 0 <= i < t.orders.len() implies order_ok(t.characters, #[trigger] t.orders[i]) by {
            assert(order_ok(s.characters, s.orders[i]));
        }
        assert forall|i: int| 0 <= i < t.characters.len() implies (#[trigger] t.characters[i]).gold >= 0 by {
            if i < s.characters.len() {
                assert(s.characters[i].gold >= 0);
            }
        }
        assert forall|key: StockKey| #[trigger] promised(t.orders, key) <= stock(t.warehouse, key, "locked"@) by {
            assert(promised(s.orders, key) <= stock(s.warehouse, key, "locked"@));
        }
    }
}

/// Whoever was there before a character joined is found where they were.
proof fn lemma_pushed_character(characters: Seq<CharacterRecordView>, row: CharacterRecordView, x: Seq<char>)
    requires
        has_character(characters, x),
    ensures
        find(characters.push(row), is_character(x)) == find(characters, is_character(x)),
        gold_of(characters.push(row), x) == gold_of(characters, x),
{
    let k = find(characters, is_character(x));
    lemma_find(characters, is_character(x));
    let after = characters.push(row);
    assert forall|i: int| 0 <= i < k implies !is_character(x)(#[trigger] after[i]) by {
        assert(!is_character(x)(characters[i]));
    }
    lemma_find_is(after, is_character(x), k);
}

impl Db {
    fn find_email(&self, email: &str) -> (k: usize)
        ensures
            k == find(self@.accounts, has_email(email@)),
            k <= self@.accounts.len(),
    {
        let f = |a: &AccountRecord| -> (b: bool)
            ensures
                b == has_email(email@)(a@),
            { same(a.account.email.as_str(), email) };
        self.accounts.find(f, Ghost(has_email(email@)))
    }

    fn find_account_id(&self, id: &str) -> (k: usize)
        ensures
            k == find(self@.accounts, is_account_id(id@)),
            k <= self@.accounts.len(),
    {
        let f = |a: &AccountRecord| -> (b: bool)
            ensures
                b == is_account_id(id@)(a@),
            { same(a.account.id.as_str(), id) };
        self.accounts.find(f, Ghost(is_account_id(id@)))
    }

    /// The account with this email.
    pub fn find_account_by_email(&self, email: &str) -> (out: Option<Account>)
        ensures
            ({
                let k = find(self@.accounts, has_email(email@));
                match out {
                    None => k == self@.accounts.len(),
                    Some(a) => k < self@.accounts.len() && a@ == self@.accounts[k].account,
                }
            }),
    {
        let k: usize = self.find_email(email);
        if k < self.accounts.len() {
            Some(self.accounts.get(k).account.copy())
        } else {
            None
        }
    }

    /// An account's role, by its id.
    pub fn role_for_account(&self, account_id: &str) -> (out: Result<String, DbError>)
        ensures
            ({
                let k = find(self@.accounts, is_account_id(account_id@));
                match out {
                    Err(_) => k == self@.accounts.len(),
                    Ok(role) => k < self@.accounts.len() && role@ == self@.accounts[k].account.role,
                }
            }),
    {
        let k: usize = self.find_account_id(account_id);
        if k < self.accounts.len() {
            Ok(self.accounts.get(k).account.role.clone())
        } else {
            Err(DbError::RowNotFound)
        }
    }

    /// Open an account and its character. Returns the ids that they got.
    fn open_account(
        &mut self,
        email: &str,
        pw_hash: &str,
        role: &str,
        name: &str,
        x: i64,
        y: i64,
        hp: i64,
        now: i64,
    ) -> (ids: (String, String))
        ensures
            final(self)@ == opened(
                old(self)@,
                opening(email@, pw_hash@, role@, name@, x as int, y as int, hp as int),
                ids.0@,
                ids.1@,
                now as int,
            ),
    {
        let account_id = new_id();
        let char_id = new_id();
        self.accounts.push(
            AccountRecord {
                account: Account {
                    id: account_id.clone(),
                    email: email.to_string(),
                    pw_hash: pw_hash.to_string(),
                    role: role.to_string(),
                },
                last_login: now,
            },
        );
        self.characters.push(
            CharacterRecord {
                character: Character {
                    id: char_id.clone(),
                    account_id: account_id.clone(),
                    name: name.to_string(),
                    x,
                    y,
                    hp,
                    district: String::new(),
                },
                gold: STARTING_GOLD,
                last_seen: now,
                respawn_structure_id: None,
            },
        );
        ledger_gold_in_tx(
            &mut self.ledger,
            char_id.as_str(),
            STARTING_GOLD,
            "character_start",
            now,
        );
        (account_id, char_id)
    }

    /// Open an account with a role, unless its email is already registered.
    pub fn seed_account_with_role(
        &mut self,
        email: &str,
        pw_hash: &str,
        name: &str,
        x: i64,
        y: i64,
        hp: i64,
        now: i64,
        role: &str,
    )
        ensures
            ({
                let known = find(old(self)@.accounts, has_email(email@)) < old(self)@.accounts.len();
                let o = opening(email@, pw_hash@, role@, name@, x as int, y as int, hp as int);
                &&& known ==> final(self)@ == old(self)@
                &&& !known ==> exists|a: Seq<char>, c: Seq<char>|
                    final(self)@ == #[trigger] opened(old(self)@, o, a, c, now as int)
            }),
    {
        let k: usize = self.find_email(email);
        if k < self.accounts.len() {
            return ;
        }
        let ids = self.open_account(email, pw_hash, role, name, x, y, hp, now);
    }

    /// Open the mayor's account, unless its email is already registered.
    pub fn seed_mayor_account(&mut self, email: &str, pw_hash: &str, name: &str, x: i64, y: i64, hp: i64, now: i64)
        ensures
            ({
                let known = find(old(self)@.accounts, has_email(email@)) < old(self)@.accounts.len();
                let o = opening(email@, pw_hash@, "mayor"@, name@, x as int, y as int, hp as int);
                &&& known ==> final(self)@ == old(self)@
                &&& !known ==> exists|a: Seq<char>, c: Seq<char>|
                    final(self)@ == #[trigger] opened(old(self)@, o, a, c, now as int)
            }),
    {
        self.seed_account_with_role(email, pw_hash, name, x, y, hp, now, "mayor");
    }

    /// Open a player's account and its character, at a given time.
    pub fn create_account_at(
        &mut self,
        email: &str,
        pw_hash: &str,
        name: &str,
        x: i64,
        y: i64,
        hp: i64,
        now: i64,
    ) -> (out: (Account, Character))
        ensures
            ({
                let o = opening(email@, pw_hash@, "player"@, name@, x as int, y as int, hp as int);
                &&& out.0@ == opened_account(o, out.0@.id)
                &&& out.1@ == opened_character(o, out.0@.id, out.1@.id)
                &&& final(self)@ == opened(old(self)@, o, out.0@.id, out.1@.id, now as int)
            }),
    {
        let (account_id, char_id) = self.open_account(email, pw_hash, "player", name, x, y, hp, now);
        let account = Account {
            id: account_id.clone(),
            email: email.to_string(),
            pw_hash: pw_hash.to_string(),
            role: "player".to_string(),
        };
        let character = Character {
            id: char_id,
            account_id,
            name: name.to_string(),
            x,
            y,
            hp,
            district: String::new(),
        };
        (account, character)
    }

    /// Open a player's account and its character.
    pub fn create_account_with_character(
        &mut self,
        email: &str,
        pw_hash: &str,
        name: &str,
        x: i64,
        y: i64,
        hp: i64,
    ) -> (out: (Account, Character))
        ensures
            ({
                let o = opening(email@, pw_hash@, "player"@, name@, x as int, y as int, hp as int);
                &&& out.0@ == opened_account(o, out.0@.id)
                &&& out.1@ == opened_character(o, out.0@.id, out.1@.id)
                &&& exists|now: int|
                    final(self)@ == #[trigger] opened(old(self)@, o, out.0@.id, out.1@.id, now)
            }),
    {
        let now: i64 = now_secs();
        let ghost at = now as int;
        self.create_account_at(email, pw_hash, name, x, y, hp, now)
    }

    /// The character of an account.
    pub fn character_for_account(&self, account_id: &str) -> (out: Option<Character>)
        ensures
            ({
                let k = find(self@.characters, is_character_of(account_id@));
                match out {
                    None => k == self@.characters.len(),
                    Some(c) => k < self@.characters.len() && c@ == self@.characters[k].character,
                }
            }),
    {
        let f = |c: &CharacterRecord| -> (b: bool)
            ensures
                b == is_character_of(account_id@)(c@),
            { same(c.character.account_id.as_str(), account_id) };
        let k: usize = self.characters.find(f, Ghost(is_character_of(account_id@)));
        if k < self.characters.len() {
            Some(self.characters.get(k).character.copy())
        } else {
            None
        }
    }

    /// A character by id.
    pub fn character_by_id(&self, id: &str) -> (out: Option<Character>)
        ensures
            ({
                let k = find(self@.characters, is_character(id@));
                match out {
                    None => k == self@.characters.len(),
                    Some(c) => k < self@.characters.len() && c@ == self@.characters[k].character,
                }
            }),
    {
        let k: usize = find_character(&self.characters, id);
        if k < self.characters.len() {
            Some(self.characters.get(k).character.copy())
        } else {
            None
        }
    }

    /// Record a login, at a given time.
    pub fn touch_login_at(&mut self, account_id: &str, now: i64)
        ensures
            ({
                let k = find(old(self)@.accounts, is_account_id(account_id@));
                final(self)@ == if k < old(self)@.accounts.len() {
                    DbView {
                        accounts: old(self)@.accounts.update(
                            k,
                            AccountRecordView { last_login: now as int, ..old(self)@.accounts[k] },
                        ),
                        ..old(self)@
                    }
                } else {
                    old(self)@
                }
            }),
    {
        let k: usize = self.find_account_id(account_id);
        if k < self.accounts.len() {
            let a = self.accounts.get_mut(k);
            a.last_login = now;
        }
    }

    /// Record a login.
    pub fn touch_login(&mut self, account_id: &str)
        ensures
            find(old(self)@.accounts, is_account_id(account_id@)) == old(self)@.accounts.len() ==> final(self)@
                == old(self)@,
            exists|now: int|
                #![trigger touched(old(self)@, account_id@, now)]
                final(self)@ == touched(old(self)@, account_id@, now),
    {
        let now: i64 = now_secs();
        let ghost s = self@;
        proof {
            lemma_find(s.accounts, is_account_id(account_id@));
        }
        self.touch_login_at(account_id, now);
        assert(self@ == touched(s, account_id@, now as int));
    }

    /// Save where a character is and how it is, at a given time.
    pub fn save_character_at(&mut self, id: &str, x: i64, y: i64, hp: i64, district: &str, now: i64)
        ensures
            final(self)@ == saved(old(self)@, id@, x as int, y as int, hp as int, district@, now as int),
    {
        let k: usize = find_character(&self.characters, id);
        if k < self.characters.len() {
            let c = self.characters.get_mut(k);
            c.character.x = x;
            c.character.y = y;
            c.character.hp = hp;
            c.character.district = district.to_string();
            c.last_seen = now;
        }
    }

    /// Save where a character is and how it is.
    pub fn save_character(&mut self, id: &str, x: i64, y: i64, hp: i64, district: &str)
        ensures
            exists|now: int|
                final(self)@ == #[trigger] saved(old(self)@, id@, x as int, y as int, hp as int, district@, now),
    {
        let now: i64 = now_secs();
        let ghost at = now as int;
        self.save_character_at(id, x, y, hp, district, now);
    }
}

pub open spec fn opening(
    email: Seq<char>,
    pw_hash: Seq<char>,
    role: Seq<char>,
    name: Seq<char>,
    x: int,
    y: int,
    hp: int,
) -> Opening {
    Opening { email, pw_hash, role, name, x, y, hp }
}

/// The state after a login is recorded.
pub open spec fn touched(s: DbView, account: Seq<char>, now: int) -> DbView {
    let k = find(s.accounts, is_account_id(account));
    if k < s.accounts.len() {
        DbView {
            accounts: s.accounts.update(k, AccountRecordView { last_login: now, ..s.accounts[k] }),
            ..s
        }
    } else {
        s
    }
}

/// The state after a character is saved. Its purse and its bed stay as they were.
pub open spec fn saved(s: DbView, id: Seq<char>, x: int, y: int, hp: int, district: Seq<char>, now: int) -> DbView {
    let k = find(s.characters, is_character(id));
    if k < s.characters.len() {
        DbView {
            characters: s.characters.update(
                k,
                CharacterRecordView {
                    character: CharacterView { x, y, hp, district, ..s.characters[k].character },
                    last_seen: now,
                    ..s.characters[k]
                },
            ),
            ..s
        }
    } else {
        s
    }
}

} // verus!
