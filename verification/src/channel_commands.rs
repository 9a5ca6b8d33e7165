//! The server console's `channel` command: creating a channel from the
//! command's words, and deleting a channel by name.
use crate::channels::find_channel_by_name;
use crate::db::ChannelDbEntry;
use crate::packet::{Channel, ChannelPerms};
use crate::utils::{parse_int, spec_parse_int};
use vstd::prelude::*;
use vstd::string::StringExecFns;

verus! {

/// Why the `channel` command failed.
pub enum ChannelCommandError {
    /// No channel has the given name.
    ChannelInexistent(String),
    /// The named channel is the default channel.
    DefaultChannelNotDeletable(String),
}

impl ChannelCommandError {
    /// The text the console shows for the error.
    pub open spec fn spec_message(&self) -> Seq<char> {
        match self {
            ChannelCommandError::ChannelInexistent(name) => "There is no channel named "@ + name@,
            ChannelCommandError::DefaultChannelNotDeletable(name) => name@ + " and may not be deleted"@,
        }
    }

    /// The text the console shows for the error.
    pub fn message(&self) -> (r: String)
        ensures
            r@ == self.spec_message(),
    {
        match self {
            ChannelCommandError::ChannelInexistent(name) => {
                let mut s = String::from_str("There is no channel named ");
                s.append(name.as_str());
                s
            },
            ChannelCommandError::DefaultChannelNotDeletable(name) => {
                let mut s = name.clone();
                s.append(" and may not be deleted");
                s
            },
        }
    }
}

// ---------------------------------------------------------------------------
// Creating a channel
// ---------------------------------------------------------------------------

/// Words joined with a separator between each two.
pub open spec fn spec_join(words: Seq<Seq<char>>, sep: Seq<char>) -> Seq<char>
    decreases words.len(),
{
    if words.len() == 0 {
        Seq::empty()
    } else if words.len() == 1 {
        words[0]
    } else {
        spec_join(words.drop_last(), sep) + sep + words.last()
    }
}

/// Joins words with a separator between each two.
pub fn join_words(words: &[&str], sep: &str) -> (r: String)
    ensures
        r@ == spec_join(words@.map_values(|w: &str| w@), sep@),
{
    let ghost ws = words@.map_values(|w: &str| w@);
    let mut s = String::new();
    let mut i: usize = 0;
    proof {
        assert(ws.take(0) =~= Seq::<Seq<char>>::empty());
    }
    while i < words.len()
        invariant
            i <= words@.len(),
            ws == words@.map_values(|w: &str| w@),
            s@ == spec_join(ws.take(i as int), sep@),
        decreases words.len() - i,
    {
        proof {
            assert(ws.take(i as int + 1).drop_last() =~= ws.take(i as int));
            assert(ws.take(i as int + 1).last() == words@[i as int]@);
        }
        if i > 0 {
            s.append(sep);
        } else {
            proof {
                assert(ws.take(1) =~= seq![words@[0]@]);
            }
        }
        s.append(words[i]);
        i = i + 1;
    }
    proof {
        assert(ws.take(words@.len() as int) =~= ws);
    }
    s
}

/// The largest sort position among `ids`, or 0 for none.
pub open spec fn max_sort_id(ids: Seq<u16>) -> u16
    decreases ids.len(),
{
    if ids.len() == 0 {
        0
    } else {
        let m = max_sort_id(ids.drop_last());
        if ids.last() > m {
            ids.last()
        } else {
            m
        }
    }
}

/// The sort positions of the channels of a database.
pub open spec fn db_sort_ids(db: Seq<ChannelDbEntry>) -> Seq<u16> {
    db.map_values(|e: ChannelDbEntry| e.sort_id)
}

/// The slot count given as the command's third word, as the console reads
/// it: a signed number of the platform's width, cut to 16 bits.
pub open spec fn spec_slots_arg(word: Seq<char>) -> i16 {
    (spec_parse_int(word, true, isize::MIN as int, isize::MAX as int)->Some_0) as i16
}

/// The sort position given as the command's fourth word: an unsigned number
/// of the platform's width, cut to 16 bits.
pub open spec fn spec_sort_arg(word: Seq<char>) -> u16 {
    (spec_parse_int(word, false, 0, usize::MAX as int)->Some_0) as u16
}

/// The words of `channel <name> create <slots> [sort] [password] [desc...]`
/// that the console can run: the slot count and the sort position are
/// numbers, the slot count is at least -1, and without a sort position the
/// next one after the largest in use still fits.
pub open spec fn create_args_ok(db: Seq<ChannelDbEntry>, input: Seq<&str>) -> bool {
    &&& input.len() >= 3
    &&& spec_parse_int(input[2]@, true, isize::MIN as int, isize::MAX as int) is Some
    &&& spec_slots_arg(input[2]@) >= -1
    &&& input.len() >= 4 ==> spec_parse_int(input[3]@, false, 0, usize::MAX as int) is Some
    &&& input.len() < 4 ==> max_sort_id(db_sort_ids(db)) < u16::MAX
}

/// The largest sort position is one of the positions (or 0 for none), so it
/// is below `u16::MAX` when every position is.
pub proof fn lemma_max_sort_id_below(ids: Seq<u16>)
    requires
        forall|i: int| 0 <= i < ids.len() ==> #[trigger] ids[i] < u16::MAX,
    ensures
        max_sort_id(ids) < u16::MAX,
    decreases ids.len(),
{
    if ids.len() > 0 {
        let init = ids.drop_last();
        assert forall|i: int| 0 <= i < init.len() implies #[trigger] init[i] < u16::MAX by {
            assert(init[i] == ids[i]);
        }
        lemma_max_sort_id_below(init);
        assert(ids[ids.len() - 1] < u16::MAX);
    }
}

/// `channel <name> create <slots>` needs nothing after the slot count: with
/// a slot count from -1 up and every sort position of the database below
/// `u16::MAX`, the three words are accepted.
pub proof fn lemma_create_needs_only_slots(db: Seq<ChannelDbEntry>, input: Seq<&str>)
    requires
        input.len() == 3,
        spec_parse_int(input[2]@, true, isize::MIN as int, isize::MAX as int) matches Some(n) && -1 <= n <= i16::MAX,
        forall|i: int| 0 <= i < db.len() ==> (#[trigger] db[i]).sort_id < u16::MAX,
    ensures
        create_args_ok(db, input),
{
    let ids = db_sort_ids(db);
    assert forall|i: int| 0 <= i < ids.len() implies #[trigger] ids[i] < u16::MAX by {
        assert(ids[i] == db[i].sort_id);
    }
    lemma_max_sort_id_below(ids);
    let n = spec_parse_int(input[2]@, true, isize::MIN as int, isize::MAX as int)->Some_0;
    assert((n as i16) as int == n);
}

/// The largest sort position among the channels of a database.
fn max_sort_id_of(db: &Vec<ChannelDbEntry>) -> (r: u16)
    ensures
        r == max_sort_id(db_sort_ids(db@)),
{
    let ghost ids = db_sort_ids(db@);
    let mut last_id: u16 = 0;
    let mut i: usize = 0;
    proof {
        assert(ids.take(0) =~= Seq::<u16>::empty());
    }
    while i < db.len()
        invariant
            i <= db@.len(),
            ids == db_sort_ids(db@),
            last_id == max_sort_id(ids.take(i as int)),
        decreases db.len() - i,
    {
        proof {
            assert(ids.take(i as int + 1).drop_last() =~= ids.take(i as int));
            assert(ids.take(i as int + 1).last() == db@[i as int].sort_id);
        }
        if db[i].sort_id > last_id {
            last_id = db[i].sort_id;
        }
        i = i + 1;
    }
    proof {
        assert(ids.take(db@.len() as int) =~= ids);
    }
    last_id
}

/// Whether the console can run `channel <name> create ...` with these
/// words.
pub fn check_create_args(db: &Vec<ChannelDbEntry>, input: &[&str]) -> (r: bool)
    ensures
        r == create_args_ok(db@, input@),
{
    if input.len() < 3 {
        return false;
    }
    let slots = match parse_int(input[2], true, isize::MIN as i128, isize::MAX as i128) {
        Some(v) => v,
        None => {
            return false;
        },
    };
    if (slots as i16) < -1 {
        return false;
    }
    if input.len() >= 4 {
        parse_int(input[3], false, 0, usize::MAX as i128).is_some()
    } else {
        max_sort_id_of(db) < u16::MAX
    }
}

/// The database entry of a channel created by `channel <name> create
/// <slots> [sort] [password] [desc...]` with uuid `id`: the name is the
/// first word; the description is the words from the sixth on, joined by
/// spaces; the password is the fifth word; the sort position is the fourth
/// word, or one past the largest in use; no user groups; the default
/// permissions.
pub fn plan_channel_create(db: &Vec<ChannelDbEntry>, input: &[&str], id: u128) -> (r: ChannelDbEntry)
    requires
        create_args_ok(db@, input@),
    ensures
        r.id == id,
        r.name@ == input@[0]@,
        r.desc@ == if input@.len() >= 6 {
            spec_join(input@.subrange(5, input@.len() as int).map_values(|w: &str| w@), " "@)
        } else {
            Seq::<char>::empty()
        },
        match r.password {
            Some(p) => input@.len() >= 5 && p@ == input@[4]@,
            None => input@.len() < 5,
        },
        r.slots == spec_slots_arg(input@[2]@),
        r.sort_id == if input@.len() >= 4 {
            spec_sort_arg(input@[3]@)
        } else {
            (max_sort_id(db_sort_ids(db@)) + 1) as u16
        },
        r.user_groups@.len() == 0,
        r.perms == (ChannelPerms { see: 0, join: 0, modify: 100, talk: 0, assign_talk: 100, delete: 100 }),
{
    let desc = if input.len() >= 6 {
        let rest = vstd::slice::slice_subrange(input, 5, input.len());
        proof {
            assert(rest@.map_values(|w: &str| w@) =~= input@.subrange(5, input@.len() as int).map_values(
                |w: &str| w@,
            ));
        }
        join_words(rest, " ")
    } else {
        String::new()
    };
    let password = if input.len() >= 5 {
        Some(String::from_str(input[4]))
    } else {
        None
    };
    let slots_raw = parse_int(input[2], true, isize::MIN as i128, isize::MAX as i128);
    let slots = slots_raw.unwrap() as i16;
    let sort_id = if input.len() >= 4 {
        let raw = parse_int(input[3], false, 0, usize::MAX as i128);
        raw.unwrap() as u16
    } else {
        max_sort_id_of(db) + 1
    };
    ChannelDbEntry {
        id,
        sort_id,
        name: String::from_str(input[0]),
        desc,
        password,
        user_groups: Vec::new(),
        perms: ChannelPerms::default(),
        slots,
    }
}

/// Whether some channel of a database has uuid `id`.
pub fn db_contains_id(db: &Vec<ChannelDbEntry>, id: u128) -> (r: bool)
    ensures
        r == exists|i: int| 0 <= i < db@.len() && #[trigger] db@[i].id == id,
{
    let mut i: usize = 0;
    while i < db.len()
        invariant
            i <= db@.len(),
            forall|j: int| 0 <= j < i ==> #[trigger] db@[j].id != id,
        decreases db.len() - i,
    {
        if db[i].id == id {
            return true;
        }
        i = i + 1;
    }
    false
}

/// Draws random uuids until one is not used by any channel of the database;
/// gives up with `None` after `u64::MAX` draws. With no channels, the first
/// draw is returned.
pub fn fresh_channel_id(db: &Vec<ChannelDbEntry>) -> (r: Option<u128>)
    ensures
        r matches Some(id) ==> forall|i: int| 0 <= i < db@.len() ==> #[trigger] db@[i].id != id,
        db@.len() == 0 ==> r is Some,
{
    let mut attempts: u64 = u64::MAX;
    while attempts > 0
        invariant
            db@.len() == 0 ==> attempts == u64::MAX,
        decreases attempts,
    {
        let id = crate::security_level::random_u128();
        if !db_contains_id(db, id) {
            return Some(id);
        }
        attempts = attempts - 1;
    }
    None
}

// ---------------------------------------------------------------------------
// Deleting a channel
// ---------------------------------------------------------------------------

/// `i` is the first position of a channel named `name`.
pub open spec fn is_first_named(chs: Seq<Channel>, name: Seq<char>, i: int) -> bool {
    0 <= i < chs.len() && chs[i]@.name == name && forall|j: int| 0 <= j < i ==> chs[j]@.name != name
}

/// The first position of a channel named `name`, if any.
pub open spec fn first_named(chs: Seq<Channel>, name: Seq<char>) -> Option<int> {
    if exists|i: int| is_first_named(chs, name, i) {
        Some(choose|i: int| is_first_named(chs, name, i))
    } else {
        None
    }
}

/// `j` is the first position of a database entry with uuid `id`.
pub open spec fn is_first_with_id(db: Seq<ChannelDbEntry>, id: u128, j: int) -> bool {
    0 <= j < db.len() && db[j].id == id && forall|k: int| 0 <= k < j ==> db[k].id != id
}

/// The first position of a database entry with uuid `id`, if any.
pub open spec fn first_with_id(db: Seq<ChannelDbEntry>, id: u128) -> Option<int> {
    if exists|j: int| is_first_with_id(db, id, j) {
        Some(choose|j: int| is_first_with_id(db, id, j))
    } else {
        None
    }
}

/// The first position of a database entry with uuid `id`.
fn find_db_entry(db: &Vec<ChannelDbEntry>, id: u128) -> (r: Option<usize>)
    ensures
        match r {
            Some(j) => first_with_id(db@, id) == Some(j as int),
            None => first_with_id(db@, id) is None,
        },
{
    let mut j: usize = 0;
    while j < db.len()
        invariant
            j <= db@.len(),
            forall|k: int| 0 <= k < j ==> db@[k].id != id,
        decreases db.len() - j,
    {
        if db[j].id == id {
            proof {
                assert(is_first_with_id(db@, id, j as int));
                let c = choose|c: int| is_first_with_id(db@, id, c);
                assert(c == j) by {
                    if c < j {
                        assert(db@[c].id != id);
                    } else if c > j {
                        assert(db@[j as int].id != id);
                    }
                }
            }
            return Some(j);
        }
        j = j + 1;
    }
    None
}

/// Deletes the channel named `name`: the first channel with that name is
/// taken out of the server's channels, unless there is none or it is the
/// default channel; then its entry is taken out of the database, or, when
/// the database has no entry with its uuid, the channel stays deleted and
/// the name is reported as unknown.
pub fn delete_channel(
    channels: &mut Vec<Channel>,
    db: &mut Vec<ChannelDbEntry>,
    name: &str,
    default_channel_id: u128,
) -> (r: Result<(), ChannelCommandError>)
    ensures
        match first_named(old(channels)@, name@) {
            None => r matches Err(ChannelCommandError::ChannelInexistent(n)) && n@ == name@ && final(channels)@
                == old(channels)@ && final(db)@ == old(db)@,
            Some(i) => if old(channels)@[i].uuid == default_channel_id {
                r matches Err(ChannelCommandError::DefaultChannelNotDeletable(n)) && n@ == name@ && final(channels)@
                    == old(channels)@ && final(db)@ == old(db)@
            } else {
                &&& final(channels)@ == old(channels)@.remove(i)
                &&& match first_with_id(old(db)@, old(channels)@[i].uuid) {
                    None => r matches Err(ChannelCommandError::ChannelInexistent(n)) && n@ == name@ && final(db)@
                        == old(db)@,
                    Some(j) => r is Ok && final(db)@ == old(db)@.remove(j),
                }
            },
        },
{
    let found = find_channel_by_name(channels, name);
    let i = match found {
        None => {
            proof {
                if exists|i: int| is_first_named(old(channels)@, name@, i) {
                    let k = choose|i: int| is_first_named(old(channels)@, name@, i);
                    assert(channels@[k]@.name != name@);
                }
            }
            return Err(ChannelCommandError::ChannelInexistent(String::from_str(name)));
        },
        Some(i) => i,
    };
    proof {
        assert(is_first_named(channels@, name@, i as int));
        let c = choose|c: int| is_first_named(channels@, name@, c);
        assert(c == i) by {
            if c < i {
                assert(channels@[c]@.name != name@);
            } else if c > i {
                assert(channels@[i as int]@.name != name@);
            }
        }
    }
    let uuid = channels[i].uuid;
    if uuid == default_channel_id {
        return Err(ChannelCommandError::DefaultChannelNotDeletable(String::from_str(name)));
    }
    channels.remove(i);
    match find_db_entry(db, uuid) {
        None => Err(ChannelCommandError::ChannelInexistent(String::from_str(name))),
        Some(j) => {
            db.remove(j);
            Ok(())
        },
    }
}

} // verus!
