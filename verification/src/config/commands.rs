//! The command registry: each command's configuration, and the commands of
//! each category.

use vstd::prelude::*;
use vstd::string::*;
use crate::config::assoc::{
    as_map, distinct_keys, insert_all, lemma_as_map_index, lemma_as_map_push, lemma_as_map_set,
};
use crate::text::{chars_eq, chars_of, push_all, push_str, string_of};

verus! {

broadcast use vstd::string::group_string_axioms;

/// The bot's commands.
#[derive(Clone, Copy, Debug, PartialEq, Eq, Hash, Structural)]
pub enum Command {
    Ask,
    Help,
    Join,
    Leave,
    Clear,
    Jump,
    Pause,
    Play,
    Queue,
    Repeat,
    Resume,
    Seek,
    Shuffle,
    Skip,
    Stop,
    Volume,
    Prayer,
    ClearPrayer,
}

/// The categories the help menu groups commands by.
#[derive(Clone, Copy, Debug, PartialEq, Eq, Hash, Structural)]
pub enum Category {
    Chat,
    Music,
    Subscription,
    Other,
}

impl Command {
    /// The snake_case name of the command (its key in the configuration).
    pub open spec fn name_spec(self) -> Seq<char> {
        match self {
            Command::Ask => "ask"@,
            Command::Help => "help"@,
            Command::Join => "join"@,
            Command::Leave => "leave"@,
            Command::Clear => "clear"@,
            Command::Jump => "jump"@,
            Command::Pause => "pause"@,
            Command::Play => "play"@,
            Command::Queue => "queue"@,
            Command::Repeat => "repeat"@,
            Command::Resume => "resume"@,
            Command::Seek => "seek"@,
            Command::Shuffle => "shuffle"@,
            Command::Skip => "skip"@,
            Command::Stop => "stop"@,
            Command::Volume => "volume"@,
            Command::Prayer => "prayer"@,
            Command::ClearPrayer => "clear_prayer"@,
        }
    }

    /// The snake_case name of the command.
    pub fn name(&self) -> (r: &'static str)
        ensures
            r@ == self.name_spec(),
    {
        match self {
            Command::Ask => "ask",
            Command::Help => "help",
            Command::Join => "join",
            Command::Leave => "leave",
            Command::Clear => "clear",
            Command::Jump => "jump",
            Command::Pause => "pause",
            Command::Play => "play",
            Command::Queue => "queue",
            Command::Repeat => "repeat",
            Command::Resume => "resume",
            Command::Seek => "seek",
            Command::Shuffle => "shuffle",
            Command::Skip => "skip",
            Command::Stop => "stop",
            Command::Volume => "volume",
            Command::Prayer => "prayer",
            Command::ClearPrayer => "clear_prayer",
        }
    }

    /// Every command, in declaration order.
    pub fn all() -> (r: Vec<Command>)
        ensures
            forall|c: Command| r@.contains(c),
            r@.len() == 18,
    {
        let r = vec![
            Command::Ask,
            Command::Help,
            Command::Join,
            Command::Leave,
            Command::Clear,
            Command::Jump,
            Command::Pause,
            Command::Play,
            Command::Queue,
            Command::Repeat,
            Command::Resume,
            Command::Seek,
            Command::Shuffle,
            Command::Skip,
            Command::Stop,
            Command::Volume,
            Command::Prayer,
            Command::ClearPrayer,
        ];
        assert forall|c: Command| r@.contains(c) by {
            match c {
                Command::Ask => assert(r@[0] == c),
                Command::Help => assert(r@[1] == c),
                Command::Join => assert(r@[2] == c),
                Command::Leave => assert(r@[3] == c),
                Command::Clear => assert(r@[4] == c),
                Command::Jump => assert(r@[5] == c),
                Command::Pause => assert(r@[6] == c),
                Command::Play => assert(r@[7] == c),
                Command::Queue => assert(r@[8] == c),
                Command::Repeat => assert(r@[9] == c),
                Command::Resume => assert(r@[10] == c),
                Command::Seek => assert(r@[11] == c),
                Command::Shuffle => assert(r@[12] == c),
                Command::Skip => assert(r@[13] == c),
                Command::Stop => assert(r@[14] == c),
                Command::Volume => assert(r@[15] == c),
                Command::Prayer => assert(r@[16] == c),
                Command::ClearPrayer => assert(r@[17] == c),
            }
        }
        r
    }

    /// The command named `s` (exactly its snake_case name), if any.
    pub fn from_name(s: &str) -> (r: Option<Command>)
        ensures
            r matches Some(c) ==> s@ == c.name_spec(),
            r is None ==> forall|c: Command| s@ != c.name_spec(),
    {
        let cs = chars_of(s);
        let all = Command::all();
        let mut i: usize = 0;
        while i < all.len()
            invariant
                i <= all@.len(),
                cs@ == s@,
                forall|c: Command| all@.contains(c),
                forall|k: int| 0 <= k < i ==> s@ != (#[trigger] all@[k]).name_spec(),
            decreases all@.len() - i,
        {
            let c = all[i];
            let n = chars_of(c.name());
            if chars_eq(cs.as_slice(), n.as_slice()) {
                return Some(c);
            }
            i += 1;
        }
        assert forall|c: Command| s@ != c.name_spec() by {
            assert(all@.contains(c));
            let k = choose|k: int| 0 <= k < all@.len() && all@[k] == c;
        }
        None
    }
}

impl Category {
    /// The snake_case name of the category.
    pub open spec fn name_spec(self) -> Seq<char> {
        match self {
            Category::Chat => "chat"@,
            Category::Music => "music"@,
            Category::Subscription => "subscription"@,
            Category::Other => "other"@,
        }
    }

    /// The snake_case name of the category.
    pub fn name(&self) -> (r: &'static str)
        ensures
            r@ == self.name_spec(),
    {
        match self {
            Category::Chat => "chat",
            Category::Music => "music",
            Category::Subscription => "subscription",
            Category::Other => "other",
        }
    }

    /// The category named `s` (exactly its snake_case name), if any.
    pub fn from_name(s: &str) -> (r: Option<Category>)
        ensures
            r matches Some(c) ==> s@ == c.name_spec(),
            r is None ==> forall|c: Category| s@ != c.name_spec(),
    {
        let cs = chars_of(s);
        let all = vec![Category::Chat, Category::Music, Category::Subscription, Category::Other];
        assert forall|c: Category| all@.contains(c) by {
            match c {
                Category::Chat => assert(all@[0] == c),
                Category::Music => assert(all@[1] == c),
                Category::Subscription => assert(all@[2] == c),
                Category::Other => assert(all@[3] == c),
            }
        }
        let mut i: usize = 0;
        while i < all.len()
            invariant
                i <= all@.len(),
                cs@ == s@,
                forall|c: Category| all@.contains(c),
                forall|k: int| 0 <= k < i ==> s@ != (#[trigger] all@[k]).name_spec(),
            decreases all@.len() - i,
        {
            let c = all[i];
            let n = chars_of(c.name());
            if chars_eq(cs.as_slice(), n.as_slice()) {
                return Some(c);
            }
            i += 1;
        }
        assert forall|c: Category| s@ != c.name_spec() by {
            let k = choose|k: int| 0 <= k < all@.len() && all@[k] == c;
        }
        None
    }
}

/// One choice of a command option.
pub struct CommandChoice {
    pub name: String,
    pub value: String,
}

/// One option (argument) of a command.
pub struct CommandOption {
    pub name: String,
    pub description: String,
    /// The Discord option type (the `type` key of the configuration).
    pub option_type: u8,
    pub required: bool,
    pub min_value: Option<i64>,
    pub max_value: Option<i64>,
    pub choices: Option<Vec<CommandChoice>>,
}

/// The configuration of one command.
pub struct CommandConfig {
    pub name: String,
    pub keys: Vec<String>,
    pub category: String,
    pub description: String,
    pub timeout: Option<u64>,
    pub action: Option<String>,
    pub options: Option<Vec<CommandOption>>,
}

/// The registry of command configurations, with the commands of each
/// category.
pub struct CommandRegistry {
    /// The commands of each category that has any, in category order.
    pub categories: Vec<(Category, Vec<Command>)>,
    /// Each command's configuration.
    pub commands: Vec<(Command, CommandConfig)>,
}

/// The commands of `cmds` whose configuration names category `cat`, in order.
pub open spec fn members(cmds: Seq<(Command, CommandConfig)>, cat: Category) -> Seq<Command>
    decreases cmds.len(),
{
    if cmds.len() == 0 {
        Seq::empty()
    } else {
        let rest = members(cmds.drop_last(), cat);
        if cmds.last().1.category@ == cat.name_spec() {
            rest.push(cmds.last().0)
        } else {
            rest
        }
    }
}

/// The categories in their order.
pub open spec fn category_order() -> Seq<Category> {
    seq![Category::Chat, Category::Music, Category::Subscription, Category::Other]
}

/// Of the categories `cats`, those with members in `cmds`, each with them.
pub open spec fn category_table_of(cmds: Seq<(Command, CommandConfig)>, cats: Seq<Category>) -> Seq<
    (Category, Seq<Command>),
>
    decreases cats.len(),
{
    if cats.len() == 0 {
        Seq::empty()
    } else {
        let rest = category_table_of(cmds, cats.drop_last());
        let c = cats.last();
        if members(cmds, c).len() > 0 {
            rest.push((c, members(cmds, c)))
        } else {
            rest
        }
    }
}

/// The view of a category table.
pub open spec fn table_view(t: Seq<(Category, Vec<Command>)>) -> Seq<(Category, Seq<Command>)> {
    t.map_values(|e: (Category, Vec<Command>)| (e.0, e.1@))
}

/// Whether the configuration of `cmds` names no known category.
pub open spec fn unknown_category(cfg: CommandConfig) -> bool {
    forall|c: Category| cfg.category@ != c.name_spec()
}

pub open spec fn warning_text(cfg: CommandConfig) -> Seq<char> {
    "Warning: Unknown category '"@ + cfg.category@ + "' in command '"@ + cfg.name@ + "'"@
}

/// The warnings for the configurations of `cmds` that name no known
/// category, in order.
pub open spec fn category_warnings_of(cmds: Seq<(Command, CommandConfig)>) -> Seq<Seq<char>>
    decreases cmds.len(),
{
    if cmds.len() == 0 {
        Seq::empty()
    } else {
        let rest = category_warnings_of(cmds.drop_last());
        if unknown_category(cmds.last().1) {
            rest.push(warning_text(cmds.last().1))
        } else {
            rest
        }
    }
}

/// The emoji shown beside a category in the help menu.
pub open spec fn cat_emoji(cat: Category) -> Seq<char> {
    match cat {
        Category::Music => "🎶"@,
        Category::Subscription => "📢"@,
        Category::Chat => "🗨️"@,
        Category::Other => "⚙️"@,
    }
}

/// Every member of a category has a configuration.
pub proof fn lemma_members_present(cmds: Seq<(Command, CommandConfig)>, cat: Category, i: int)
    requires
        0 <= i < members(cmds, cat).len(),
    ensures
        as_map(cmds).contains_key(members(cmds, cat)[i]),
    decreases cmds.len(),
{
    if cmds.len() > 0 {
        let rest = members(cmds.drop_last(), cat);
        if i < rest.len() {
            lemma_members_present(cmds.drop_last(), cat, i);
            let j = choose|j: int| 0 <= j < cmds.drop_last().len() && cmds.drop_last()[j].0 == rest[i];
            assert(cmds[j].0 == rest[i]);
        } else {
            assert(cmds[cmds.len() - 1].0 == members(cmds, cat)[i]);
        }
    }
}

/// A command is listed under a category exactly when its configuration
/// names that category.
pub proof fn lemma_members_exactly(cmds: Seq<(Command, CommandConfig)>, cat: Category, c: Command)
    ensures
        members(cmds, cat).contains(c) <==> exists|i: int|
            0 <= i < cmds.len() && cmds[i].0 == c && cmds[i].1.category@ == cat.name_spec(),
    decreases cmds.len(),
{
    if cmds.len() > 0 {
        let init = cmds.drop_last();
        lemma_members_exactly(init, cat, c);
        let rest = members(init, cat);
        if members(cmds, cat).contains(c) {
            let k = choose|k: int| 0 <= k < members(cmds, cat).len() && members(cmds, cat)[k] == c;
            if k < rest.len() {
                assert(rest[k] == c);
                assert(rest.contains(c));
                let i = choose|i: int|
                    0 <= i < init.len() && init[i].0 == c && init[i].1.category@ == cat.name_spec();
                assert(cmds[i] == init[i]);
            } else {
                assert(cmds[cmds.len() - 1].0 == c);
            }
        }
        if exists|i: int|
            0 <= i < cmds.len() && cmds[i].0 == c && cmds[i].1.category@ == cat.name_spec() {
            let i = choose|i: int|
                0 <= i < cmds.len() && cmds[i].0 == c && cmds[i].1.category@ == cat.name_spec();
            if i < cmds.len() - 1 {
                assert(init[i] == cmds[i]);
                assert(rest.contains(c));
                let k = choose|k: int| 0 <= k < rest.len() && rest[k] == c;
                assert(members(cmds, cat)[k] == c);
            } else {
                assert(members(cmds, cat) == rest.push(c));
                assert(members(cmds, cat)[rest.len() as int] == c);
            }
        }
    }
}

/// The category names are distinct.
pub proof fn lemma_category_names_distinct(a: Category, b: Category)
    ensures
        a.name_spec() == b.name_spec() ==> a == b,
{
    reveal_strlit("chat");
    reveal_strlit("music");
    reveal_strlit("subscription");
    reveal_strlit("other");
    if a != b && a.name_spec() == b.name_spec() {
        assert(a.name_spec()[0] == b.name_spec()[0]);
    }
}

/// In a registry, a command is listed under at most one category: the one
/// its configuration names.
pub proof fn lemma_one_category(cmds: Seq<(Command, CommandConfig)>, c: Command, a: Category, b: Category)
    requires
        distinct_keys(cmds),
        members(cmds, a).contains(c),
        members(cmds, b).contains(c),
    ensures
        a == b,
{
    lemma_members_exactly(cmds, a, c);
    lemma_members_exactly(cmds, b, c);
    let i = choose|i: int| 0 <= i < cmds.len() && cmds[i].0 == c && cmds[i].1.category@ == a.name_spec();
    let j = choose|j: int| 0 <= j < cmds.len() && cmds[j].0 == c && cmds[j].1.category@ == b.name_spec();
    if i != j {
        if i < j {
            assert(cmds[i].0 != cmds[j].0);
        } else {
            assert(cmds[j].0 != cmds[i].0);
        }
    }
    lemma_category_names_distinct(a, b);
}

/// A category's member list names each command at most once.
proof fn lemma_members_distinct(cmds: Seq<(Command, CommandConfig)>, cat: Category)
    requires
        distinct_keys(cmds),
    ensures
        members(cmds, cat).no_duplicates(),
    decreases cmds.len(),
{
    if cmds.len() > 0 {
        let init = cmds.drop_last();
        assert(distinct_keys(init)) by {
            assert forall|i: int, j: int| 0 <= i < j < init.len() implies #[trigger] init[i].0
                != #[trigger] init[j].0 by {
                assert(init[i] == cmds[i] && init[j] == cmds[j]);
            }
        }
        lemma_members_distinct(init, cat);
        let k = cmds.last().0;
        lemma_members_exactly(init, cat, k);
        if members(init, cat).contains(k) {
            let i = choose|i: int|
                0 <= i < init.len() && init[i].0 == k && init[i].1.category@ == cat.name_spec();
            assert(cmds[i].0 != cmds[cmds.len() - 1].0);
        }
    }
}

/// A command is listed under a category exactly when it has a
/// configuration and that configuration names the category.
proof fn lemma_members_configured(cmds: Seq<(Command, CommandConfig)>, cat: Category, c: Command)
    requires
        distinct_keys(cmds),
    ensures
        members(cmds, cat).contains(c) <==> (as_map(cmds).contains_key(c) && as_map(cmds)[c].category@
            == cat.name_spec()),
{
    lemma_members_exactly(cmds, cat, c);
    if members(cmds, cat).contains(c) {
        let i = choose|i: int|
            0 <= i < cmds.len() && cmds[i].0 == c && cmds[i].1.category@ == cat.name_spec();
        lemma_as_map_index(cmds, i);
    }
    if as_map(cmds).contains_key(c) {
        let i = choose|i: int| 0 <= i < cmds.len() && cmds[i].0 == c;
        lemma_as_map_index(cmds, i);
    }
}

/// The table built over the distinct categories `cats` has distinct keys,
/// all among `cats`, and lists a category exactly when it has members,
/// with its members.
proof fn lemma_table_lookup(cmds: Seq<(Command, CommandConfig)>, cats: Seq<Category>, cat: Category)
    requires
        cats.no_duplicates(),
    ensures
        distinct_keys(category_table_of(cmds, cats)),
        forall|j: int|
            0 <= j < category_table_of(cmds, cats).len() ==> cats.contains(
                #[trigger] category_table_of(cmds, cats)[j].0,
            ),
        as_map(category_table_of(cmds, cats)).contains_key(cat) <==> (cats.contains(cat) && members(
            cmds,
            cat,
        ).len() > 0),
        as_map(category_table_of(cmds, cats)).contains_key(cat) ==> as_map(
            category_table_of(cmds, cats),
        )[cat] == members(cmds, cat),
    decreases cats.len(),
{
    if cats.len() > 0 {
        let init = cats.drop_last();
        let last = cats.last();
        assert(init.no_duplicates()) by {
            assert forall|i: int, j: int| 0 <= i < init.len() && 0 <= j < init.len() && i != j implies init[i]
                != init[j] by {
                assert(init[i] == cats[i] && init[j] == cats[j]);
            }
        }
        lemma_table_lookup(cmds, init, cat);
        lemma_table_lookup(cmds, init, last);
        let rest = category_table_of(cmds, init);
        assert forall|j: int| 0 <= j < rest.len() implies cats.contains(#[trigger] rest[j].0) by {
            assert(init.contains(rest[j].0));
            let k = choose|k: int| 0 <= k < init.len() && init[k] == rest[j].0;
            assert(cats[k] == rest[j].0);
        }
        assert(!init.contains(last)) by {
            if init.contains(last) {
                let k = choose|k: int| 0 <= k < init.len() && init[k] == last;
                assert(cats[k] == cats[cats.len() - 1]);
            }
        }
        if cat != last {
            assert(cats.contains(cat) <==> init.contains(cat)) by {
                if cats.contains(cat) {
                    let k = choose|k: int| 0 <= k < cats.len() && cats[k] == cat;
                    assert(init[k] == cat);
                }
                if init.contains(cat) {
                    let k = choose|k: int| 0 <= k < init.len() && init[k] == cat;
                    assert(cats[k] == cat);
                }
            }
        }
        assert(cats[cats.len() - 1] == last);
        if members(cmds, last).len() > 0 {
            assert forall|j: int| 0 <= j < rest.len() implies rest[j].0 != last by {
                assert(init.contains(rest[j].0));
            }
            lemma_as_map_push(rest, last, members(cmds, last));
        }
    }
}

/// The category order lists every category, once.
proof fn lemma_order_has_all(cat: Category)
    ensures
        category_order().contains(cat),
        category_order().no_duplicates(),
{
    let o = category_order();
    match cat {
        Category::Chat => assert(o[0] == cat),
        Category::Music => assert(o[1] == cat),
        Category::Subscription => assert(o[2] == cat),
        Category::Other => assert(o[3] == cat),
    }
}

impl CommandRegistry {
    /// The registry's invariant: one configuration per command, and the
    /// category table derived from the configurations.
    pub open spec fn wf(&self) -> bool {
        &&& distinct_keys(self.commands@)
        &&& table_view(self.categories@) == category_table_of(self.commands@, category_order())
    }

    /// The configuration of each command.
    pub open spec fn command_map(&self) -> Map<Command, CommandConfig> {
        as_map(self.commands@)
    }

    /// Builds the registry from the command configurations `entries` (a later
    /// entry for a command replaces an earlier one), grouping the commands by
    /// the category their configuration names; a configuration naming no
    /// known category joins no category (see `category_warnings`).
    pub fn new(entries: Vec<(Command, CommandConfig)>) -> (r: Self)
        ensures
            r.wf(),
            r.command_map() == insert_all(entries@),
    {
        let mut commands: Vec<(Command, CommandConfig)> = Vec::new();
        let mut rest = entries;
        let ghost all = entries@;
        // Move the entries out in order (the vector is reversed first so that
        // `pop` yields them front to back).
        let mut rev: Vec<(Command, CommandConfig)> = Vec::new();
        while rest.len() > 0
            invariant
                all == rest@ + rev@.reverse(),
            decreases rest@.len(),
        {
            let e = rest.pop().unwrap();
            let ghost before = rev@;
            rev.push(e);
            assert(rev@.reverse() =~= seq![e] + before.reverse());
        }
        assert(rest@ + rev@.reverse() =~= rev@.reverse());
        assert(all.take(0) + rev@.reverse() =~= rev@.reverse());
        let mut i: usize = 0;
        let n = rev.len();
        while rev.len() > 0
            invariant
                all == all.take(i as int) + rev@.reverse(),
                i + rev@.len() == n,
                n == all.len(),
                distinct_keys(commands@),
                as_map(commands@) == insert_all(all.take(i as int)),
            decreases rev@.len(),
        {
            let ghost before_rev = rev@;
            let (k, v) = rev.pop().unwrap();
            assert(all.take(i + 1).drop_last() == all.take(i as int));
            assert(before_rev.reverse() == seq![(k, v)] + rev@.reverse());
            assert(all[i as int] == (k, v));
            assert(all.take(i + 1).last() == (k, v));
            let mut j: usize = 0;
            let mut found: Option<usize> = None;
            while j < commands.len()
                invariant
                    j <= commands@.len(),
                    found matches Some(f) ==> f < commands@.len() && commands@[f as int].0 == k,
                    found is None ==> forall|q: int| 0 <= q < j ==> commands@[q].0 != k,
                decreases commands@.len() - j,
            {
                if found.is_none() && commands[j].0 == k {
                    found = Some(j);
                }
                j += 1;
            }
            match found {
                Some(f) => {
                    proof {
                        lemma_as_map_set(commands@, f as int, k, v);
                    }
                    commands.set(f, (k, v));
                },
                None => {
                    proof {
                        lemma_as_map_push(commands@, k, v);
                    }
                    commands.push((k, v));
                },
            }
            i += 1;
        }
        assert(all.take(n as int) == all);
        let categories = Self::build_categories(&commands);
        CommandRegistry { categories, commands }
    }

    /// The configuration of `cmd` (present in the registry).
    pub fn get_command(&self, cmd: &Command) -> (r: &CommandConfig)
        requires
            self.wf(),
            self.command_map().contains_key(*cmd),
        ensures
            *r == self.command_map()[*cmd],
    {
        let mut i: usize = 0;
        while i < self.commands.len()
            invariant
                i <= self.commands@.len(),
                self.wf(),
                self.command_map().contains_key(*cmd),
                forall|q: int| 0 <= q < i ==> self.commands@[q].0 != *cmd,
            decreases self.commands@.len() - i,
        {
            if self.commands[i].0 == *cmd {
                proof {
                    lemma_as_map_index(self.commands@, i as int);
                }
                return &self.commands[i].1;
            }
            i += 1;
        }
        assert(false);
        &self.commands[0].1
    }

    /// The categories that have commands, each with them.
    pub open spec fn category_map(&self) -> Map<Category, Seq<Command>> {
        as_map(table_view(self.categories@))
    }

    /// The commands are grouped by the category their configuration names:
    /// a category is listed exactly when some configured command names it,
    /// and then it lists each such command once and no other; a command
    /// whose configuration names no known category is listed nowhere.
    pub proof fn lemma_grouped_by_category(&self, cat: Category, c: Command)
        requires
            self.wf(),
        ensures
            self.category_map().contains_key(cat) <==> exists|k: Command|
                self.command_map().contains_key(k) && self.command_map()[k].category@ == cat.name_spec(),
            self.category_map().contains_key(cat) ==> (self.category_map()[cat].contains(c) <==> (
            self.command_map().contains_key(c) && self.command_map()[c].category@ == cat.name_spec())),
            self.category_map().contains_key(cat) ==> self.category_map()[cat].no_duplicates(),
            self.command_map().contains_key(c) && unknown_category(self.command_map()[c]) ==> !(
            self.category_map().contains_key(cat) && self.category_map()[cat].contains(c)),
    {
        let cmds = self.commands@;
        lemma_order_has_all(cat);
        lemma_table_lookup(cmds, category_order(), cat);
        lemma_members_configured(cmds, cat, c);
        lemma_members_distinct(cmds, cat);
        if members(cmds, cat).len() > 0 {
            let k = members(cmds, cat)[0];
            assert(members(cmds, cat).contains(k));
            lemma_members_configured(cmds, cat, k);
        }
        if exists|k: Command|
            self.command_map().contains_key(k) && self.command_map()[k].category@ == cat.name_spec() {
            let k = choose|k: Command|
                self.command_map().contains_key(k) && self.command_map()[k].category@ == cat.name_spec();
            lemma_members_configured(cmds, cat, k);
            let i = choose|i: int| 0 <= i < members(cmds, cat).len() && members(cmds, cat)[i] == k;
        }
    }

    /// The configurations of the commands of category `cat` (which has
    /// commands), in order.
    pub fn get_cmds_from_cat(&self, cat: &Category) -> (r: Vec<&CommandConfig>)
        requires
            self.wf(),
            members(self.commands@, *cat).len() > 0,
        ensures
            r@.len() == members(self.commands@, *cat).len(),
            forall|i: int|
                0 <= i < r@.len() ==> *r@[i] == self.command_map()[members(self.commands@, *cat)[i]],
    {
        let m = Self::members_of(&self.commands, *cat);
        let mut r: Vec<&CommandConfig> = Vec::new();
        let mut i: usize = 0;
        while i < m.len()
            invariant
                i <= m@.len(),
                self.wf(),
                m@ == members(self.commands@, *cat),
                r@.len() == i,
                forall|q: int| 0 <= q < i ==> *r@[q] == self.command_map()[m@[q]],
            decreases m@.len() - i,
        {
            proof {
                lemma_members_present(self.commands@, *cat, i as int);
            }
            r.push(self.get_command(&m[i]));
            i += 1;
        }
        r
    }

    /// The emoji of category `cat` in the help menu.
    pub fn get_cat_emoji(&self, cat: &Category) -> (r: &'static str)
        ensures
            r@ == cat_emoji(*cat),
    {
        match cat {
            Category::Music => "🎶",
            Category::Subscription => "📢",
            Category::Chat => "🗨️",
            Category::Other => "⚙️",
        }
    }

    /// The warnings for configurations that name no known category, in the
    /// registry's order.
    pub fn category_warnings(&self) -> (r: Vec<String>)
        ensures
            r@.map_values(|w: String| w@) == category_warnings_of(self.commands@),
    {
        let mut r: Vec<String> = Vec::new();
        let mut i: usize = 0;
        while i < self.commands.len()
            invariant
                i <= self.commands@.len(),
                r@.map_values(|w: String| w@) == category_warnings_of(self.commands@.take(i as int)),
            decreases self.commands@.len() - i,
        {
            assert(self.commands@.take(i + 1).drop_last() == self.commands@.take(i as int));
            let cfg = &self.commands[i].1;
            if Category::from_name(cfg.category.as_str()).is_none() {
                let mut m: Vec<char> = Vec::new();
                push_str(&mut m, "Warning: Unknown category '");
                push_str(&mut m, cfg.category.as_str());
                push_str(&mut m, "' in command '");
                push_str(&mut m, cfg.name.as_str());
                push_str(&mut m, "'");
                let ghost before = r@.map_values(|w: String| w@);
                r.push(string_of(m.as_slice()));
                assert(r@.map_values(|w: String| w@) =~= before.push(warning_text(*cfg)));
            } else {
                assert(!unknown_category(*cfg));
            }
            i += 1;
        }
        assert(self.commands@.take(self.commands@.len() as int) == self.commands@);
        r
    }

    /// The command named `name` and its configuration: what a command
    /// registered under that name takes its name, description, aliases and
    /// category from.
    pub fn config_for_name(&self, name: &str) -> (r: (Command, &CommandConfig))
        requires
            self.wf(),
            exists|c: Command| name@ == c.name_spec() && self.command_map().contains_key(c),
        ensures
            name@ == r.0.name_spec(),
            self.command_map().contains_key(r.0),
            *r.1 == self.command_map()[r.0],
    {
        let all = Command::all();
        let cs = chars_of(name);
        let mut i: usize = 0;
        while i < all.len()
            invariant
                i <= all@.len(),
                cs@ == name@,
                self.wf(),
                forall|c: Command| all@.contains(c),
                exists|c: Command| name@ == c.name_spec() && self.command_map().contains_key(c),
                forall|k: int|
                    0 <= k < i ==> !(name@ == (#[trigger] all@[k]).name_spec()
                        && self.command_map().contains_key(all@[k])),
            decreases all@.len() - i,
        {
            let c = all[i];
            let n = chars_of(c.name());
            if chars_eq(cs.as_slice(), n.as_slice()) && self.has_command(&c) {
                return (c, self.get_command(&c));
            }
            i += 1;
        }
        proof {
            let c = choose|c: Command| name@ == c.name_spec() && self.command_map().contains_key(c);
            assert(all@.contains(c));
            let k = choose|k: int| 0 <= k < all@.len() && all@[k] == c;
            assert(false);
        }
        (all[0], self.get_command(&all[0]))
    }

    /// Whether `cmd` has a configuration.
    pub fn has_command(&self, cmd: &Command) -> (r: bool)
        requires
            self.wf(),
        ensures
            r == self.command_map().contains_key(*cmd),
    {
        let mut i: usize = 0;
        while i < self.commands.len()
            invariant
                i <= self.commands@.len(),
                self.wf(),
                forall|q: int| 0 <= q < i ==> self.commands@[q].0 != *cmd,
            decreases self.commands@.len() - i,
        {
            if self.commands[i].0 == *cmd {
                proof {
                    lemma_as_map_index(self.commands@, i as int);
                }
                return true;
            }
            i += 1;
        }
        proof {
            if self.command_map().contains_key(*cmd) {
                let j = choose|j: int| 0 <= j < self.commands@.len() && self.commands@[j].0 == *cmd;
                assert(self.commands@[j].0 == *cmd);
            }
        }
        false
    }

    fn members_of(commands: &Vec<(Command, CommandConfig)>, cat: Category) -> (r: Vec<Command>)
        ensures
            r@ == members(commands@, cat),
    {
        let name = chars_of(cat.name());
        let mut r: Vec<Command> = Vec::new();
        let mut i: usize = 0;
        while i < commands.len()
            invariant
                i <= commands@.len(),
                name@ == cat.name_spec(),
                r@ == members(commands@.take(i as int), cat),
            decreases commands@.len() - i,
        {
            assert(commands@.take(i + 1).drop_last() == commands@.take(i as int));
            let c = chars_of(commands[i].1.category.as_str());
            if chars_eq(c.as_slice(), name.as_slice()) {
                r.push(commands[i].0);
            }
            i += 1;
        }
        assert(commands@.take(commands@.len() as int) == commands@);
        r
    }

    fn build_categories(commands: &Vec<(Command, CommandConfig)>) -> (r: Vec<
        (Category, Vec<Command>),
    >)
        ensures
            table_view(r@) == category_table_of(commands@, category_order()),
    {
        let order = vec![Category::Chat, Category::Music, Category::Subscription, Category::Other];
        assert(order@ == category_order());
        let mut r: Vec<(Category, Vec<Command>)> = Vec::new();
        let mut i: usize = 0;
        while i < order.len()
            invariant
                i <= order@.len(),
                order@ == category_order(),
                table_view(r@) == category_table_of(commands@, order@.take(i as int)),
            decreases order@.len() - i,
        {
            assert(order@.take(i + 1).drop_last() == order@.take(i as int));
            let cat = order[i];
            let m = Self::members_of(commands, cat);
            if m.len() > 0 {
                let ghost before = table_view(r@);
                r.push((cat, m));
                assert(table_view(r@) =~= before.push((cat, members(commands@, cat))));
            }
            i += 1;
        }
        assert(order@.take(order@.len() as int) == order@);
        r
    }
}

} // verus!
