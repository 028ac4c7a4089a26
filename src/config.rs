use vstd::prelude::*;

use crate::text::{chars_of, find_chars, find_from, string_of};

verus! {

/// The text that separates the old and the new half of a replacement entry
/// in a configuration file.
pub open spec fn delimiter() -> Seq<char> {
    seq![' ', '#', '=', '>', '#', ' ']
}

/// A replacement entry of a configuration file cut at the first delimiter,
/// or `None` where the delimiter does not occur in it.
pub open spec fn split_replacement(e: Seq<char>) -> Option<(Seq<char>, Seq<char>)> {
    match find_from(e, delimiter(), 0) {
        Some(i) => Some((e.take(i), e.skip(i + delimiter().len()))),
        None => None,
    }
}

/// One literal substitution applied to generated text: every `old` becomes `new`.
#[derive(Debug)]
pub struct Replacement {
    pub old: String,
    pub new: String,
}

impl View for Replacement {
    type V = (Seq<char>, Seq<char>);

    open spec fn view(&self) -> (Seq<char>, Seq<char>) {
        (self.old@, self.new@)
    }
}

/// The pairs of a list of replacements, in order.
pub open spec fn replacement_views(v: Seq<Replacement>) -> Seq<(Seq<char>, Seq<char>)> {
    v.map_values(|r: Replacement| r@)
}

/// The settings of one framework, as values.
pub struct ConfigView {
    pub opaque_types: Seq<Seq<char>>,
    pub blocklist_items: Seq<Seq<char>>,
    pub layout_tests: bool,
    pub replacements: Seq<(Seq<char>, Seq<char>)>,
}

/// The settings of a framework that has none of its own.
pub open spec fn zero_config() -> ConfigView {
    ConfigView {
        opaque_types: Seq::empty(),
        blocklist_items: Seq::empty(),
        layout_tests: false,
        replacements: Seq::empty(),
    }
}

/// The settings used when generating bindings for one framework.
#[derive(Debug)]
pub struct Config {
    /// Types whose layout the generated code does not model.
    pub opaque_types: Vec<String>,
    /// Items left out of the generated code.
    pub blocklist_items: Vec<String>,
    /// Whether layout tests are generated.
    pub layout_tests: bool,
    /// Substitutions applied in order to the generated text.
    pub replacements: Vec<Replacement>,
}

impl View for Config {
    type V = ConfigView;

    open spec fn view(&self) -> ConfigView {
        ConfigView {
            opaque_types: self.opaque_types.deep_view(),
            blocklist_items: self.blocklist_items.deep_view(),
            layout_tests: self.layout_tests,
            replacements: replacement_views(self.replacements@),
        }
    }
}

impl Default for Config {
    fn default() -> (r: Config)
        ensures
            r@ == zero_config(),
    {
        let r = Config {
            opaque_types: Vec::new(),
            blocklist_items: Vec::new(),
            layout_tests: false,
            replacements: Vec::new(),
        };
        assert(r@.opaque_types =~= Seq::<Seq<char>>::empty());
        assert(r@.blocklist_items =~= Seq::<Seq<char>>::empty());
        assert(r@.replacements =~= Seq::<(Seq<char>, Seq<char>)>::empty());
        r
    }
}

/// Cuts a replacement entry at the first delimiter.
pub fn parse_replacement(entry: &str) -> (r: Option<Replacement>)
    ensures
        r is None <==> split_replacement(entry@) is None,
        r matches Some(p) ==> split_replacement(entry@) == Some(p@),
{
    let e = chars_of(entry);
    let elen = e.len();
    let d = chars_of(" #=># ");
    proof {
        reveal_strlit(" #=># ");
        assert(d@ =~= delimiter());
    }
    match find_chars(&e, &d) {
        None => None,
        Some(i) => {
            let mut old_part: Vec<char> = Vec::new();
            let mut j: usize = 0;
            while j < i
                invariant
                    j <= i,
                    i + d@.len() <= e@.len(),
                    old_part@ == e@.take(j as int),
                decreases i - j,
            {
                old_part.push(e[j]);
                j += 1;
                assert(old_part@ =~= e@.take(j as int));
            }
            let mut new_part: Vec<char> = Vec::new();
            let mut k: usize = i + d.len();
            while k < e.len()
                invariant
                    i + d@.len() <= k <= e@.len(),
                    new_part@ == e@.subrange(i + d@.len(), k as int),
                decreases e@.len() - k,
            {
                new_part.push(e[k]);
                k += 1;
                assert(new_part@ =~= e@.subrange(i + d@.len(), k as int));
            }
            assert(new_part@ =~= e@.skip(i + d@.len()));
            Some(Replacement { old: string_of(&old_part), new: string_of(&new_part) })
        },
    }
}

/// A list of names copied.
pub(crate) fn clone_strings(v: &Vec<String>) -> (r: Vec<String>)
    ensures
        r.deep_view() == v.deep_view(),
{
    let r = v.clone();
    assert(r@ =~= v@);
    r
}

/// The settings of one framework as a configuration file writes them: each
/// replacement is one string, its old and new text joined by the delimiter.
#[derive(Debug)]
pub struct FileConfig {
    pub opaque_types: Vec<String>,
    pub blocklist_items: Vec<String>,
    pub layout_tests: bool,
    pub replacements: Vec<String>,
}

/// The old and the new text of a replacement entry that holds the delimiter.
pub open spec fn entry_pair(e: Seq<char>) -> (Seq<char>, Seq<char>) {
    match split_replacement(e) {
        Some(p) => p,
        None => (e, Seq::empty()),
    }
}

/// The pairs of the replacement entries, in order.
pub open spec fn entry_pairs(entries: Seq<Seq<char>>) -> Seq<(Seq<char>, Seq<char>)> {
    entries.map_values(|e: Seq<char>| entry_pair(e))
}

/// Every replacement entry holds the delimiter.
pub open spec fn entries_well_formed(entries: Seq<Seq<char>>) -> bool {
    forall|j: int| 0 <= j < entries.len() ==> split_replacement(#[trigger] entries[j]) is Some
}

impl FileConfig {
    /// The settings this file entry stands for, once every replacement is cut.
    pub open spec fn spec_config(&self) -> ConfigView {
        ConfigView {
            opaque_types: self.opaque_types.deep_view(),
            blocklist_items: self.blocklist_items.deep_view(),
            layout_tests: self.layout_tests,
            replacements: entry_pairs(self.replacements.deep_view()),
        }
    }

    /// The settings of this entry; `Err(j)` where replacement `j` is the
    /// first one without the delimiter.
    pub fn to_config(&self) -> (r: Result<Config, usize>)
        ensures
            r is Ok <==> entries_well_formed(self.replacements.deep_view()),
            r matches Ok(c) ==> c@ == self.spec_config(),
            r matches Err(j) ==> j < self.replacements@.len() && split_replacement(
                self.replacements@[j as int]@,
            ) is None && entries_well_formed(self.replacements.deep_view().take(j as int)),
    {
        let ghost entries = self.replacements.deep_view();
        let mut reps: Vec<Replacement> = Vec::new();
        let mut j: usize = 0;
        while j < self.replacements.len()
            invariant
                j <= self.replacements@.len(),
                entries == self.replacements.deep_view(),
                entries_well_formed(entries.take(j as int)),
                reps@.len() == j,
                replacement_views(reps@) == entry_pairs(entries.take(j as int)),
            decreases self.replacements@.len() - j,
        {
            assert(entries[j as int] == self.replacements@[j as int]@);
            match parse_replacement(self.replacements[j].as_str()) {
                None => {
                    assert(split_replacement(entries[j as int]) is None);
                    return Err(j);
                },
                Some(p) => {
                    let ghost before = replacement_views(reps@);
                    let ghost old_reps = reps@;
                    let ghost pv = p@;
                    assert(entry_pair(entries[j as int]) == pv);
                    reps.push(p);
                    j += 1;
                    assert(entries.take(j as int).drop_last() =~= entries.take(j - 1));
                    assert forall|k: int| 0 <= k < j implies split_replacement(
                        #[trigger] entries.take(j as int)[k],
                    ) is Some by {
                        if k < j - 1 {
                            assert(entries.take(j as int)[k] == entries.take(j - 1)[k]);
                        }
                    }
                    assert forall|k: int| 0 <= k < j implies replacement_views(reps@)[k]
                        == #[trigger] entry_pairs(entries.take(j as int))[k] by {
                        assert(reps@.len() == j);
                        if k < j - 1 {
                            assert(reps@[k] == old_reps[k]);
                            assert(before[k] == entry_pairs(entries.take(j - 1))[k]);
                            assert(entries.take(j - 1)[k] == entries.take(j as int)[k]);
                        } else {
                            assert(reps@[k]@ == pv);
                        }
                    }
                    assert(replacement_views(reps@) =~= entry_pairs(entries.take(j as int)));
                },
            }
        }
        assert(entries.take(j as int) =~= entries);
        Ok(
            Config {
                opaque_types: clone_strings(&self.opaque_types),
                blocklist_items: clone_strings(&self.blocklist_items),
                layout_tests: self.layout_tests,
                replacements: reps,
            },
        )
    }
}

/// Why a configuration file was not accepted.
#[derive(Debug)]
pub enum ConfigError {
    /// Replacement `entry` of `framework` does not hold the delimiter.
    MissingDelimiter { framework: String, entry: usize },
}

/// The settings found for `name`: those of the last entry under that name,
/// or the zero settings where there is none.
pub open spec fn resolve(entries: Seq<(Seq<char>, ConfigView)>, name: Seq<char>) -> ConfigView
    decreases entries.len(),
{
    if entries.len() == 0 {
        zero_config()
    } else if entries.last().0 == name {
        entries.last().1
    } else {
        resolve(entries.drop_last(), name)
    }
}

/// The settings that come with the library: names that the compiler's
/// headers declare in a shape the generator cannot lay out.
pub open spec fn builtin_table() -> Seq<(Seq<char>, ConfigView)> {
    seq![
        ("CoreFoundation"@, blocklisting("max_align_t"@)),
        ("Foundation"@, blocklisting("max_align_t"@)),
    ]
}

/// Settings that leave out one item and nothing else.
pub open spec fn blocklisting(item: Seq<char>) -> ConfigView {
    ConfigView { blocklist_items: seq![item], ..zero_config() }
}

/// The entries of a configuration file with their replacements cut.
pub open spec fn file_table(file: Seq<(String, FileConfig)>) -> Seq<(Seq<char>, ConfigView)> {
    file.map_values(|e: (String, FileConfig)| (e.0@, e.1.spec_config()))
}

/// Every replacement entry of the file holds the delimiter.
pub open spec fn file_well_formed(file: Seq<(String, FileConfig)>) -> bool {
    forall|k: int|
        0 <= k < file.len() ==> entries_well_formed(#[trigger] file[k].1.replacements.deep_view())
}

/// The names and settings of a list of entries, in order.
pub open spec fn entry_views(v: Seq<(String, Config)>) -> Seq<(Seq<char>, ConfigView)> {
    v.map_values(|e: (String, Config)| (e.0@, e.1@))
}

/// Settings per framework name, where a later entry takes the place of an
/// earlier one under the same name.
pub struct ConfigMap {
    entries: Vec<(String, Config)>,
}

impl View for ConfigMap {
    type V = Seq<(Seq<char>, ConfigView)>;

    closed spec fn view(&self) -> Seq<(Seq<char>, ConfigView)> {
        entry_views(self.entries@)
    }
}

impl ConfigMap {
    /// A map with no entries.
    pub fn new() -> (r: ConfigMap)
        ensures
            r@ == Seq::<(Seq<char>, ConfigView)>::empty(),
    {
        let r = ConfigMap { entries: Vec::new() };
        assert(r@ =~= Seq::<(Seq<char>, ConfigView)>::empty());
        r
    }

    /// Adds settings for `framework`, in place of any it had.
    pub fn insert(&mut self, framework: &str, config: Config)
        ensures
            final(self)@ == old(self)@.push((framework@, config@)),
    {
        self.entries.push((framework.to_owned(), config));
        assert(self@ =~= old(self)@.push((framework@, config@)));
    }

    /// The settings that come with the library.
    pub fn with_builtin_config() -> (r: ConfigMap)
        ensures
            r@ == builtin_table(),
    {
        let mut r = ConfigMap::new();
        r.insert("CoreFoundation", blocklisting_config("max_align_t"));
        r.insert("Foundation", blocklisting_config("max_align_t"));
        assert(r@ =~= builtin_table());
        r
    }

    /// Adds the entries of a configuration file, in order. Where a
    /// replacement entry lacks the delimiter nothing is added, and the error
    /// names the first such entry.
    pub fn load_file(&mut self, file: &Vec<(String, FileConfig)>) -> (r: Result<(), ConfigError>)
        ensures
            r is Ok <==> file_well_formed(file@),
            r is Ok ==> final(self)@ == old(self)@ + file_table(file@),
            r is Err ==> final(self)@ == old(self)@,
            r matches Err(ConfigError::MissingDelimiter { framework, entry }) ==> exists|k: int|
                0 <= k < file@.len() && file_well_formed(file@.take(k)) && framework@
                    == file@[k].0@ && entry < file@[k].1.replacements@.len()
                    && split_replacement(file@[k].1.replacements@[entry as int]@) is None
                    && entries_well_formed(
                    file@[k].1.replacements.deep_view().take(entry as int),
                ),
    {
        let mut added: Vec<(String, Config)> = Vec::new();
        let mut k: usize = 0;
        while k < file.len()
            invariant
                k <= file@.len(),
                self@ == old(self)@,
                file_well_formed(file@.take(k as int)),
                added@.len() == k,
                entry_views(added@) == file_table(
                    file@.take(k as int),
                ),
            decreases file@.len() - k,
        {
            let ghost before = added@;
            match file[k].1.to_config() {
                Err(entry) => {
                    proof {
                        assert(!entries_well_formed(file@[k as int].1.replacements.deep_view()));
                        assert(!file_well_formed(file@));
                    }
                    return Err(ConfigError::MissingDelimiter { framework: file[k].0.clone(), entry });
                },
                Ok(c) => {
                    added.push((file[k].0.clone(), c));
                    k += 1;
                    proof {
                        assert forall|i: int| 0 <= i < k implies entries_well_formed(
                            #[trigger] file@.take(k as int)[i].1.replacements.deep_view(),
                        ) by {
                            if i < k - 1 {
                                assert(file@.take(k as int)[i] == file@.take(k - 1)[i]);
                            }
                        }
                        assert forall|i: int| 0 <= i < k implies entry_views(added@)[i]
                            == #[trigger] file_table(file@.take(k as int))[i] by {
                            if i < k - 1 {
                                assert(added@[i] == before[i]);
                                assert(entry_views(before)[i] == file_table(file@.take(k - 1))[i]);
                                assert(file@.take(k as int)[i] == file@.take(k - 1)[i]);
                            }
                        }
                        assert(entry_views(added@) =~= file_table(file@.take(k as int)));
                    }
                },
            }
        }
        assert(file@.take(k as int) =~= file@);
        let ghost start = self@;
        self.entries.append(&mut added);
        assert(self@ =~= start + file_table(file@));
        Ok(())
    }

    /// The settings for `framework`.
    pub fn build(self, framework: &str) -> (r: Config)
        ensures
            r@ == resolve(self@, framework@),
    {
        let name = framework.to_owned();
        let mut entries = self.entries;
        take_config(&mut entries, &name)
    }
}

/// Removes and returns the settings of the last entry named `name`, or
/// returns the zero settings.
fn take_config(entries: &mut Vec<(String, Config)>, name: &String) -> (r: Config)
    ensures
        r@ == resolve(entry_views(old(entries)@), name@),
{
    let ghost all = entry_views(entries@);
    let mut i: usize = entries.len();
    assert(all.take(i as int) =~= all);
    while i > 0
        invariant
            i <= entries@.len(),
            entries@ == old(entries)@,
            all == entry_views(entries@),
            resolve(all, name@) == resolve(all.take(i as int), name@),
        decreases i,
    {
        i -= 1;
        assert(all.take(i + 1).drop_last() =~= all.take(i as int));
        if entries[i].0.eq(name) {
            let ghost e = entries@[i as int];
            assert(all.take(i + 1).last() == all[i as int]);
            assert(all[i as int] == (e.0@, e.1@));
            let (_, c) = entries.remove(i);
            assert(c == e.1);
            return c;
        }
    }
    assert(all.take(0) =~= Seq::<(Seq<char>, ConfigView)>::empty());
    Config::default()
}

/// Settings that leave out `item` and nothing else.
fn blocklisting_config(item: &str) -> (r: Config)
    ensures
        r@ == blocklisting(item@),
{
    let mut blocklist_items: Vec<String> = Vec::new();
    blocklist_items.push(item.to_owned());
    let r = Config {
        opaque_types: Vec::new(),
        blocklist_items,
        layout_tests: false,
        replacements: Vec::new(),
    };
    assert(r@.opaque_types =~= Seq::<Seq<char>>::empty());
    assert(r@.blocklist_items =~= seq![item@]);
    assert(r@.replacements =~= Seq::<(Seq<char>, Seq<char>)>::empty());
    r
}

/// A framework that no entry names gets the zero settings, not an error.
pub proof fn lemma_unknown_framework(entries: Seq<(Seq<char>, ConfigView)>, name: Seq<char>)
    requires
        forall|k: int| 0 <= k < entries.len() ==> (#[trigger] entries[k]).0 != name,
    ensures
        resolve(entries, name) == zero_config(),
    decreases entries.len(),
{
    if entries.len() > 0 {
        let rest = entries.drop_last();
        assert forall|k: int| 0 <= k < rest.len() implies (#[trigger] rest[k]).0 != name by {
            assert(rest[k] == entries[k]);
        }
        lemma_unknown_framework(rest, name);
    }
}

} // verus!
