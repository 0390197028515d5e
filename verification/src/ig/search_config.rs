//! What to search for, and where.
//!
//! The pattern, the options of the matcher and the sizes of the context are
//! plain values. Which files are searched is held in two matchers of the
//! `ignore` crate: the overrides, made of globs, and the file types. They
//! are built by that crate and carried along here.

use grep::regex::RegexMatcher;
use grep::regex::RegexMatcherBuilder;
use ignore::overrides::Override;
use ignore::overrides::OverrideBuilder;
use ignore::types::Types;
use ignore::types::TypesBuilder;
use std::path::PathBuf;
use vstd::prelude::*;

use crate::ui::cmd_parse::drop_whitespace;
use crate::ui::cmd_parse::texts_of;
use crate::ui::cmd_parse::SearchCmd;

verus! {

/// `std::path::PathBuf`, a path of the file system.
#[verifier::external_type_specification]
#[verifier::external_body]
pub struct ExPathBuf(PathBuf);

/// `ignore::overrides::Override`, the globs that decide which files are
/// searched.
#[verifier::external_type_specification]
#[verifier::external_body]
pub struct ExOverride(Override);

/// `ignore::overrides::OverrideBuilder`, which collects globs.
#[verifier::external_type_specification]
#[verifier::external_body]
pub struct ExOverrideBuilder(OverrideBuilder);

/// `ignore::types::Types`, the file types that are searched.
#[verifier::external_type_specification]
#[verifier::external_body]
pub struct ExTypes(Types);

/// `ignore::types::TypesBuilder`, which collects file types.
#[verifier::external_type_specification]
#[verifier::external_body]
pub struct ExTypesBuilder(TypesBuilder);

/// `ignore::Error`, the error of a glob or a file type.
#[verifier::external_type_specification]
#[verifier::external_body]
pub struct ExIgnoreError(ignore::Error);

/// `grep::regex::Error`, the error of a pattern.
#[verifier::external_type_specification]
#[verifier::external_body]
pub struct ExPatternError(grep::regex::Error);

/// The byte that ends a line.
pub const LINE_TERMINATOR: u8 = 10;

/// Whether `grep` makes a matcher of `pattern` with these options: the byte
/// that ends a line, case insensitive, smart case, and whole words only.
pub uninterp spec fn pattern_compiles(
    pattern: Seq<char>,
    line_terminator: u8,
    case_insensitive: bool,
    case_smart: bool,
    word: bool,
) -> bool;

/// Configures a `grep::regex::RegexMatcherBuilder` with the byte that ends a
/// line and the three options, and calls its `build` for `pattern`. Whether
/// a matcher comes out depends on these five values alone, and has the name
/// [`pattern_compiles`].
#[verifier::external_body]
fn compile_matcher(
    pattern: &str,
    line_terminator: u8,
    case_insensitive: bool,
    case_smart: bool,
    word: bool,
) -> (matcher: Result<RegexMatcher, grep::regex::Error>)
    ensures
        matcher is Ok <==> pattern_compiles(pattern@, line_terminator, case_insensitive, case_smart, word),
{
    RegexMatcherBuilder::new()
        .line_terminator(Some(line_terminator))
        .case_insensitive(case_insensitive)
        .case_smart(case_smart)
        .word(word)
        .build(pattern)
}

/// `Clone::clone` of an `ignore::overrides::Override`. Nothing is claimed
/// of the copy.
pub assume_specification[ <ignore::overrides::Override as Clone>::clone ](
    matcher: &ignore::overrides::Override,
) -> ignore::overrides::Override;

/// `Clone::clone` of `ignore::types::Types`. Nothing is claimed of the copy.
pub assume_specification[ <ignore::types::Types as Clone>::clone ](
    matcher: &ignore::types::Types,
) -> ignore::types::Types;

/// Why a configuration could not be made.
#[derive(Debug, Clone, Copy, PartialEq, Eq)]
pub enum ConfigError {
    /// The pattern is no regular expression that can be searched for.
    Pattern,
    /// A glob could not be read.
    Glob,
    /// The globs could not be put together.
    Overrides,
    /// The file types could not be put together.
    FileTypes,
}

/// The configuration of a search.
#[derive(Clone)]
pub struct SearchConfig {
    /// The regular expression that is searched for.
    pub pattern: String,
    /// The files and directories that are searched.
    pub paths: Vec<PathBuf>,
    /// Whether letters match in either case.
    pub case_insensitive: bool,
    /// Whether letters match in either case if the pattern has no capital.
    pub case_smart: bool,
    /// The globs that a file must match to be searched.
    pub overrides: Override,
    /// The file types that are searched.
    pub types: Types,
    /// Whether hidden files are searched.
    pub search_hidden: bool,
    /// Whether symbolic links are followed.
    pub follow_links: bool,
    /// Whether only whole words match.
    pub word_regexp: bool,
    /// The lines shown after a matching line.
    pub after_context: usize,
    /// The lines shown before a matching line.
    pub before_context: usize,
}

/// The globs that an `ignore::overrides::OverrideBuilder` holds, each as it
/// was written, in the order in which they were added.
pub uninterp spec fn builder_globs(builder: OverrideBuilder) -> Seq<Seq<char>>;

/// The globs that an `ignore::overrides::Override` holds, each as it was
/// written, in the order in which they were added to its builder.
pub uninterp spec fn override_globs(overrides: Override) -> Seq<Seq<char>>;

/// The selections that an `ignore::types::TypesBuilder` holds, in order: the
/// name of a file type, and before it whether it is selected, not negated.
pub uninterp spec fn builder_selections(builder: TypesBuilder) -> Seq<(bool, Seq<char>)>;

/// The selections that `ignore::types::Types` hold, as
/// [`builder_selections`] gives them for a builder.
pub uninterp spec fn type_selections(types: Types) -> Seq<(bool, Seq<char>)>;

/// The selections that are asked for: the names of `selected`, then `negated`.
pub open spec fn requested(selected: Seq<String>, negated: Seq<String>) -> Seq<(bool, Seq<char>)> {
    selected.map_values(|name: String| (true, name@)) + negated.map_values(|name: String| (false, name@))
}

/// Whether one of `names` is `all`, which stands for every defined file type.
pub open spec fn asks_for_all(names: Seq<String>) -> bool {
    exists|i: int| 0 <= i < names.len() && (#[trigger] names[i])@ == "all"@
}

/// The glob that `ignore` keeps of a line, as it is written: nothing of a
/// line that starts with `#`; else the line without the whitespace at its
/// end, which stays if a backslash stands before a last space; and nothing
/// if that is empty.
pub open spec fn held_glob(line: Seq<char>) -> Option<Seq<char>> {
    let kept = if line.len() >= 2 && line[line.len() - 2] == '\\' && line.last() == ' ' {
        line
    } else {
        line.take(drop_whitespace(line, 0, line.len() as int))
    };
    if (line.len() > 0 && line[0] == '#') || kept.len() == 0 {
        None
    } else {
        Some(kept)
    }
}

/// The file types with the default definitions of `ignore`, the types of
/// `selected` selected and those of `negated` negated.
fn types_with(selected: &Vec<String>, negated: &Vec<String>) -> (types: Result<Types, ignore::Error>)
    ensures
        types matches Ok(built) ==> follow(requested(selected@, negated@), type_selections(built)),
        types matches Ok(built) ==> (!asks_for_all(selected@) && !asks_for_all(negated@) ==> type_selections(built)
            == requested(selected@, negated@)),
{
    let mut builder = new_types_builder();
    add_default_types(&mut builder);
    let mut i: usize = 0;
    assert(requested(selected@.take(0), negated@.take(0)) =~= Seq::<(bool, Seq<char>)>::empty());
    while i < selected.len()
        invariant
            i <= selected.len(),
            follow(requested(selected@.take(i as int), negated@.take(0)), builder_selections(builder)),
        decreases selected.len() - i,
    {
        let ghost before = requested(selected@.take(i as int), negated@.take(0));
        let ghost held = builder_selections(builder);
        select_type(&mut builder, selected[i].as_str());
        proof {
            lemma_follow_push(before, held, (true, selected@[i as int]@), builder_selections(builder));
            assert(requested(selected@.take(i + 1), negated@.take(0)) =~= before.push(
                (true, selected@[i as int]@),
            ));
        }
        i += 1;
    }
    let mut j: usize = 0;
    assert(selected@.take(i as int) =~= selected@);
    while j < negated.len()
        invariant
            j <= negated.len(),
            follow(requested(selected@, negated@.take(j as int)), builder_selections(builder)),
        decreases negated.len() - j,
    {
        let ghost before = requested(selected@, negated@.take(j as int));
        let ghost held = builder_selections(builder);
        negate_type(&mut builder, negated[j].as_str());
        proof {
            lemma_follow_push(before, held, (false, negated@[j as int]@), builder_selections(builder));
            assert(requested(selected@, negated@.take(j + 1)) =~= before.push((false, negated@[j as int]@)));
        }
        j += 1;
    }
    proof {
        assert(negated@.take(j as int) =~= negated@);
        if !asks_for_all(selected@) && !asks_for_all(negated@) {
            let requests = requested(selected@, negated@);
            assert forall|k: int| 0 <= k < requests.len() implies (#[trigger] requests[k]).1 != "all"@ by {
                if k < selected@.len() {
                    assert(selected@[k]@ != "all"@);
                } else {
                    assert(negated@[k - selected@.len()]@ != "all"@);
                }
            }
            lemma_follow_without_all(requests, builder_selections(builder));
        }
    }
    build_types(&builder)
}

impl SearchConfig {
    /// Whether the pattern can be searched for with the options set.
    pub open spec fn pattern_is_valid(&self) -> bool {
        pattern_compiles(self.pattern@, LINE_TERMINATOR, self.case_insensitive, self.case_smart, self.word_regexp)
    }

    /// Makes the matcher for the pattern with the options set.
    pub fn matcher(&self) -> (matcher: Result<RegexMatcher, ConfigError>)
        ensures
            matcher is Ok <==> self.pattern_is_valid(),
            matcher matches Err(e) ==> e == ConfigError::Pattern,
    {
        match compile_matcher(
            self.pattern.as_str(),
            LINE_TERMINATOR,
            self.case_insensitive,
            self.case_smart,
            self.word_regexp,
        ) {
            Ok(matcher) => Ok(matcher),
            Err(_) => Err(ConfigError::Pattern),
        }
    }

    /// Takes pattern, globs and context sizes from a search command.
    ///
    /// The globs are relative to `current_dir`. A command without globs
    /// leaves the overrides as they are; so do globs that cannot be put
    /// together. A glob that cannot be read is passed over: the new
    /// overrides hold, in the order of the command, what `ignore` keeps
    /// of the globs that it could read. Which globs it can read, and
    /// whether it can put them together, is its own affair.
    ///
    /// Everything else in the configuration stays as it is.
    pub fn update_from(&mut self, cmd: SearchCmd, current_dir: &PathBuf)
        ensures
            final(self).pattern == cmd.pattern,
            final(self).after_context == cmd.after_context,
            final(self).before_context == cmd.before_context,
            *final(self) == (SearchConfig {
                pattern: cmd.pattern,
                after_context: cmd.after_context,
                before_context: cmd.before_context,
                overrides: final(self).overrides,
                ..*old(self)
            }),
            (cmd.golb matches Some(globs) ==> globs@.len() == 0) ==> final(self).overrides == old(self).overrides,
            final(self).overrides == old(self).overrides || (cmd.golb matches Some(globs) && picks(
                texts_of(globs@),
                override_globs(final(self).overrides),
            )),
    {
        self.pattern = cmd.pattern;
        if let Some(globs) = cmd.golb {
            if globs.len() > 0 {
                let ghost lines = texts_of(globs@);
                let mut builder = new_override_builder(current_dir);
                let mut i: usize = 0;
                assert(lines.take(0) =~= Seq::<Seq<char>>::empty());
                while i < globs.len()
                    invariant
                        i <= globs.len(),
                        lines == texts_of(globs@),
                        picks(lines.take(i as int), builder_globs(builder)),
                    decreases globs.len() - i,
                {
                    let ghost held = builder_globs(builder);
                    let _ = add_override_glob(&mut builder, globs[i].as_str());
                    proof {
                        assert(lines.take(i + 1).drop_last() =~= lines.take(i as int));
                        assert(lines.take(i + 1).last() == globs@[i as int]@);
                        if builder_globs(builder) != held {
                            assert(builder_globs(builder).drop_last() =~= held);
                        }
                    }
                    i += 1;
                }
                assert(lines.take(globs@.len() as int) =~= lines);
                match build_override(&builder) {
                    Ok(ov) => {
                        self.overrides = ov;
                    },
                    Err(_) => {},
                }
            }
        }
        self.after_context = cmd.after_context;
        self.before_context = cmd.before_context;
    }

    /// Sets the globs, which are relative to `current_dir`. A glob that
    /// cannot be read is an error, and so are globs that cannot be put
    /// together.
    pub fn globs(self, globs: Vec<String>, current_dir: &PathBuf) -> (config: Result<Self, ConfigError>)
        ensures
            match config {
                Ok(c) => {
                    &&& c == (SearchConfig { overrides: c.overrides, ..self })
                    &&& override_globs(c.overrides) == held_globs(texts_of(globs@))
                },
                Err(e) => e == ConfigError::Glob || e == ConfigError::Overrides,
            },
            held_globs(texts_of(globs@)).len() == 0 ==> !(config matches Err(e) && e == ConfigError::Glob),
    {
        // The globs are handed to a builder one by one. The first that
        // cannot be read ends the work.
        let builder = match builder_with(&globs, current_dir) {
            Ok(builder) => builder,
            Err(e) => {
                return Err(e);
            },
        };
        // What the builder makes of the globs replaces the overrides. All
        // else stays as it is.
        match build_override(&builder) {
            Ok(overrides) => {
                let mut config = self;
                config.overrides = overrides;
                Ok(config)
            },
            Err(_) => {
                return Err(ConfigError::Overrides);
            },
        }
    }

    /// Sets the file types: the types of `file_types` are searched, those of
    /// `file_types_not` are not.
    pub fn file_types(self, file_types: Vec<String>, file_types_not: Vec<String>) -> (config: Result<
        Self,
        ConfigError,
    >)
        ensures
            match config {
                Ok(c) => {
                    &&& c == (SearchConfig { types: c.types, ..self })
                    &&& follow(requested(file_types@, file_types_not@), type_selections(c.types))
                    &&& !asks_for_all(file_types@) && !asks_for_all(file_types_not@) ==> type_selections(c.types)
                        == requested(file_types@, file_types_not@)
                },
                Err(e) => e == ConfigError::FileTypes,
            },
    {
        match types_with(&file_types, &file_types_not) {
            Ok(types) => {
                let mut config = self;
                config.types = types;
                Ok(config)
            },
            Err(_) => Err(ConfigError::FileTypes),
        }
    }

    /// A configuration for `pattern` in `paths`: case is told apart, hidden
    /// files are passed over, links are not followed, no context is shown,
    /// no globs are set and the default file types are known.
    pub fn from(pattern: String, paths: Vec<PathBuf>) -> (config: Result<Self, ConfigError>)
        ensures
            match config {
                Ok(c) => {
                    &&& c.pattern == pattern
                    &&& c.paths == paths
                    &&& !c.case_insensitive
                    &&& !c.case_smart
                    &&& !c.search_hidden
                    &&& !c.follow_links
                    &&& !c.word_regexp
                    &&& c.after_context == 0
                    &&& c.before_context == 0
                    &&& override_globs(c.overrides) == Seq::<Seq<char>>::empty()
                    &&& type_selections(c.types) == Seq::<(bool, Seq<char>)>::empty()
                },
                Err(e) => e == ConfigError::FileTypes,
            },
    {
        let none: Vec<String> = Vec::new();
        assert(requested(none@, none@) =~= Seq::<(bool, Seq<char>)>::empty());
        match types_with(&none, &none) {
            Ok(types) => Ok(
                Self {
                    pattern,
                    paths,
                    case_insensitive: false,
                    case_smart: false,
                    overrides: empty_override(),
                    types,
                    search_hidden: false,
                    follow_links: false,
                    word_regexp: false,
                    after_context: 0,
                    before_context: 0,
                },
            ),
            Err(_) => Err(ConfigError::FileTypes),
        }
    }

    /// Sets whether letters match in either case.
    pub fn case_insensitive(self, case_insensitive: bool) -> (config: Self)
        ensures
            config == (SearchConfig { case_insensitive, ..self }),
    {
        let mut config = self;
        config.case_insensitive = case_insensitive;
        config
    }

    /// Sets whether letters match in either case unless the pattern holds a
    /// capital letter.
    pub fn case_smart(self, case_smart: bool) -> (config: Self)
        ensures
            config == (SearchConfig { case_smart, ..self }),
    {
        let mut config = self;
        config.case_smart = case_smart;
        config
    }

    pub fn search_hidden(self, search_hidden: bool) -> (config: Self)
        ensures
            config == (SearchConfig { search_hidden, ..self }),
    {
        let mut config = self;
        config.search_hidden = search_hidden;
        config
    }

    pub fn follow_links(self, follow_links: bool) -> (config: Self)
        ensures
            config == (SearchConfig { follow_links, ..self }),
    {
        let mut config = self;
        config.follow_links = follow_links;
        config
    }

    pub fn word_regexp(self, word_regexp: bool) -> (config: Self)
        ensures
            config == (SearchConfig { word_regexp, ..self }),
    {
        let mut config = self;
        config.word_regexp = word_regexp;
        config
    }
}

/// Whether the selections `held` are what the request `request` stands
/// for: the request itself, or, if its name is `all`, any number of
/// selections of its kind, one for every file type that is defined.
pub open spec fn stands_for(request: (bool, Seq<char>), held: Seq<(bool, Seq<char>)>) -> bool {
    if request.1 == "all"@ {
        forall|k: int| 0 <= k < held.len() ==> (#[trigger] held[k]).0 == request.0
    } else {
        held == seq![request]
    }
}

/// Whether the selections `held` are what the requests stand for, one
/// after another.
pub open spec fn follow(requests: Seq<(bool, Seq<char>)>, held: Seq<(bool, Seq<char>)>) -> bool
    decreases requests.len(),
{
    if requests.len() == 0 {
        held.len() == 0
    } else {
        exists|n: int|
            #![trigger held.take(n)]
            0 <= n <= held.len() && follow(requests.drop_last(), held.take(n)) && stands_for(
                requests.last(),
                held.skip(n),
            )
    }
}

/// Requests none of which is for `all` are held as they are.
pub proof fn lemma_follow_without_all(requests: Seq<(bool, Seq<char>)>, held: Seq<(bool, Seq<char>)>)
    requires
        follow(requests, held),
        forall|i: int| 0 <= i < requests.len() ==> (#[trigger] requests[i]).1 != "all"@,
    ensures
        held == requests,
    decreases requests.len(),
{
    reveal_with_fuel(follow, 2);
    if requests.len() > 0 {
        let n = choose|n: int|
            #![trigger held.take(n)]
            0 <= n <= held.len() && follow(requests.drop_last(), held.take(n)) && stands_for(
                requests.last(),
                held.skip(n),
            );
        assert forall|i: int| 0 <= i < requests.drop_last().len() implies (#[trigger] requests.drop_last()[i]).1
            != "all"@ by {
            assert(requests.drop_last()[i] == requests[i]);
        }
        lemma_follow_without_all(requests.drop_last(), held.take(n));
        assert(requests.last() == requests[requests.len() - 1]);
        assert(held =~= held.take(n) + held.skip(n));
        assert(requests =~= requests.drop_last().push(requests.last()));
    }
}

/// One more request is followed if what was held is still held, and what
/// is held behind it is what the request stands for.
proof fn lemma_follow_push(
    requests: Seq<(bool, Seq<char>)>,
    held: Seq<(bool, Seq<char>)>,
    request: (bool, Seq<char>),
    more: Seq<(bool, Seq<char>)>,
)
    requires
        follow(requests, held),
        more.len() >= held.len(),
        more.take(held.len() as int) == held,
        stands_for(request, more.skip(held.len() as int)),
    ensures
        follow(requests.push(request), more),
{
    reveal_with_fuel(follow, 2);
    let longer = requests.push(request);
    assert(longer.drop_last() =~= requests);
    assert(longer.last() == request);
    assert(follow(longer.drop_last(), more.take(held.len() as int)));
}

/// Whether `held` are the globs that `ignore` keeps of some of `lines`, in
/// order: of every line its glob, or nothing.
pub open spec fn picks(lines: Seq<Seq<char>>, held: Seq<Seq<char>>) -> bool
    decreases lines.len(),
{
    if lines.len() == 0 {
        held.len() == 0
    } else {
        ||| picks(lines.drop_last(), held)
        ||| (held.len() > 0 && held_glob(lines.last()) == Some(held.last()) && picks(
            lines.drop_last(),
            held.drop_last(),
        ))
    }
}

/// The globs that `ignore` keeps of `lines`, in order.
pub open spec fn held_globs(lines: Seq<Seq<char>>) -> Seq<Seq<char>>
    decreases lines.len(),
{
    if lines.len() == 0 {
        Seq::empty()
    } else {
        match held_glob(lines.last()) {
            Some(glob) => held_globs(lines.drop_last()).push(glob),
            None => held_globs(lines.drop_last()),
        }
    }
}

/// Of a longer list of lines no fewer globs are kept.
proof fn lemma_held_globs_grow(lines: Seq<Seq<char>>, n: int)
    requires
        0 <= n <= lines.len(),
    ensures
        held_globs(lines.take(n)).len() <= held_globs(lines).len(),
    decreases lines.len() - n,
{
    if n < lines.len() {
        lemma_held_globs_grow(lines, n + 1);
        assert(lines.take(n + 1).drop_last() =~= lines.take(n));
    } else {
        assert(lines.take(n) =~= lines);
    }
}

/// Calls `ignore::overrides::Override::empty`, which holds no glob.
#[verifier::external_body]
fn empty_override() -> (overrides: Override)
    ensures
        override_globs(overrides) == Seq::<Seq<char>>::empty(),
{
    Override::empty()
}

/// Calls `ignore::overrides::OverrideBuilder::new` with the directory that
/// the globs are relative to. The builder holds no glob.
#[verifier::external_body]
fn new_override_builder(root: &PathBuf) -> (builder: OverrideBuilder)
    ensures
        builder_globs(builder) == Seq::<Seq<char>>::empty(),
{
    OverrideBuilder::new(root)
}

/// Calls `ignore::overrides::OverrideBuilder::add`. It fails on a glob that
/// it cannot read, and then holds what it held. Else it holds one glob
/// more, as [`held_glob`] gives it, or what it held if that gives none; a
/// line that gives none is never a failure.
#[verifier::external_body]
fn add_override_glob(builder: &mut OverrideBuilder, glob: &str) -> (added: Result<(), ignore::Error>)
    ensures
        held_glob(glob@) is None ==> added is Ok,
        builder_globs(*final(builder)) == match held_glob(glob@) {
            Some(held) if added is Ok => builder_globs(*old(builder)).push(held),
            _ => builder_globs(*old(builder)),
        },
{
    builder.add(glob).map(|_| ())
}

/// Calls `ignore::overrides::OverrideBuilder::build`. What is built holds
/// the globs of the builder.
#[verifier::external_body]
fn build_override(builder: &OverrideBuilder) -> (built: Result<Override, ignore::Error>)
    ensures
        built matches Ok(overrides) ==> override_globs(overrides) == builder_globs(*builder),
{
    builder.build()
}

/// Calls `ignore::types::TypesBuilder::new`. The builder holds no selection.
#[verifier::external_body]
fn new_types_builder() -> (builder: TypesBuilder)
    ensures
        builder_selections(builder) == Seq::<(bool, Seq<char>)>::empty(),
{
    TypesBuilder::new()
}

/// Calls `ignore::types::TypesBuilder::add_defaults`, which defines file
/// types and selects none.
#[verifier::external_body]
fn add_default_types(builder: &mut TypesBuilder)
    ensures
        builder_selections(*final(builder)) == builder_selections(*old(builder)),
{
    builder.add_defaults();
}

/// Calls `ignore::types::TypesBuilder::select`. What the builder held it
/// still holds, and behind it one more selection with the name, or, for
/// the name `all`, one selection for every file type that is defined.
#[verifier::external_body]
fn select_type(builder: &mut TypesBuilder, name: &str)
    ensures
        builder_selections(*final(builder)).len() >= builder_selections(*old(builder)).len(),
        builder_selections(*final(builder)).take(builder_selections(*old(builder)).len() as int)
            == builder_selections(*old(builder)),
        stands_for(
            (true, name@),
            builder_selections(*final(builder)).skip(builder_selections(*old(builder)).len() as int),
        ),
{
    builder.select(name);
}

/// Calls `ignore::types::TypesBuilder::negate`, which does as `select`
/// does, with negated selections.
#[verifier::external_body]
fn negate_type(builder: &mut TypesBuilder, name: &str)
    ensures
        builder_selections(*final(builder)).len() >= builder_selections(*old(builder)).len(),
        builder_selections(*final(builder)).take(builder_selections(*old(builder)).len() as int)
            == builder_selections(*old(builder)),
        stands_for(
            (false, name@),
            builder_selections(*final(builder)).skip(builder_selections(*old(builder)).len() as int),
        ),
{
    builder.negate(name);
}

/// Calls `ignore::types::TypesBuilder::build`. What is built holds the
/// selections of the builder.
#[verifier::external_body]
fn build_types(builder: &TypesBuilder) -> (built: Result<Types, ignore::Error>)
    ensures
        built matches Ok(types) ==> type_selections(types) == builder_selections(*builder),
{
    builder.build()
}

/// A builder that holds `globs`, which are relative to `current_dir`, or
/// the error of the first glob that cannot be read.
fn builder_with(globs: &Vec<String>, current_dir: &PathBuf) -> (made: Result<OverrideBuilder, ConfigError>)
    ensures
        match made {
            Ok(builder) => builder_globs(builder) == held_globs(texts_of(globs@)),
            Err(e) => e == ConfigError::Glob && held_globs(texts_of(globs@)).len() > 0,
        },
{
    let ghost lines = texts_of(globs@);
    let mut builder = new_override_builder(current_dir);
    let mut i: usize = 0;
    assert(lines.take(0) =~= Seq::<Seq<char>>::empty());
    while i < globs.len()
        invariant
            i <= globs.len(),
            lines == texts_of(globs@),
            builder_globs(builder) == held_globs(lines.take(i as int)),
        decreases globs.len() - i,
    {
        proof {
            assert(lines.take(i + 1).drop_last() =~= lines.take(i as int));
            assert(lines.take(i + 1).last() == globs@[i as int]@);
        }
        match add_override_glob(&mut builder, globs[i].as_str()) {
            Ok(_) => {},
            Err(_) => {
                proof {
                    lemma_held_globs_grow(lines, i + 1);
                }
                return Err(ConfigError::Glob);
            },
        }
        i += 1;
    }
    assert(lines.take(globs@.len() as int) =~= lines);
    Ok(builder)
}

} // verus!
