//! The file-type matcher that the traversal is given: one type per allowed
//! extension, each recognised by the glob `*.` followed by the extension.
//! The matcher is built by the `ignore` crate.
use vstd::prelude::*;
use vstd::string::StringExecFns;
use ignore::types::{Types, TypesBuilder};
use crate::text::{spells, texts, to_chars};

verus! {

/// `ignore::types::TypesBuilder`, which collects type definitions and
/// selections. Nothing is known of its inside.
#[verifier::external_type_specification]
#[verifier::external_body]
pub struct ExTypesBuilder(ignore::types::TypesBuilder);

/// `ignore::types::Types`, the matcher that a builder produces. Nothing is
/// known of its inside.
#[verifier::external_type_specification]
#[verifier::external_body]
pub struct ExTypes(ignore::types::Types);

/// `ignore::Error`. Nothing is known of its inside.
#[verifier::external_type_specification]
#[verifier::external_body]
pub struct ExIgnoreError(ignore::Error);

/// The definitions that a builder holds: for each type name that has one,
/// its globs in the order in which they were added. The builder keeps no
/// order among the names.
pub uninterp spec fn builder_definitions(builder: TypesBuilder) -> Map<Seq<char>, Seq<Seq<char>>>;

/// The type names selected in a builder so far, in order.
pub uninterp spec fn builder_selections(builder: TypesBuilder) -> Seq<Seq<char>>;

/// The type names that a matcher selects, in order.
pub uninterp spec fn matcher_selections(matcher: Types) -> Seq<Seq<char>>;

/// Whether `TypesBuilder::build` makes a matcher from the given definitions
/// and selections. It looks at nothing else.
pub uninterp spec fn matcher_builds(
    definitions: Map<Seq<char>, Seq<Seq<char>>>,
    selections: Seq<Seq<char>>,
) -> bool;

/// The definitions that a builder holds after `TypesBuilder::add_defaults`,
/// given those that it held before: the crate's built-in table is added.
pub uninterp spec fn with_defaults(definitions: Map<Seq<char>, Seq<Seq<char>>>) -> Map<
    Seq<char>,
    Seq<Seq<char>>,
>;

/// No definitions at all.
pub open spec fn no_definitions() -> Map<Seq<char>, Seq<Seq<char>>> {
    Map::empty()
}

/// The globs of a type name; none where the name has no definition.
pub open spec fn globs_of(definitions: Map<Seq<char>, Seq<Seq<char>>>, name: Seq<char>) -> Seq<
    Seq<char>,
> {
    if definitions.dom().contains(name) {
        definitions[name]
    } else {
        Seq::empty()
    }
}

/// The definitions with one more glob for `name`, behind those it had.
pub open spec fn with_glob(
    definitions: Map<Seq<char>, Seq<Seq<char>>>,
    name: Seq<char>,
    glob: Seq<char>,
) -> Map<Seq<char>, Seq<Seq<char>>> {
    definitions.insert(name, globs_of(definitions, name).push(glob))
}

/// Whether a character is a letter or a number, as `char::is_alphanumeric` of
/// the standard library tells.
pub uninterp spec fn alphanumeric(c: char) -> bool;

/// `char::is_alphanumeric` of the standard library. Its result depends on the
/// character alone; the contract gives it a name.
pub assume_specification[ char::is_alphanumeric ](c: char) -> (r: bool)
    ensures
        r == alphanumeric(c),
;

/// A type name is made of letters and numbers only, and is not `all`.
pub open spec fn is_type_name(name: Seq<char>) -> bool {
    &&& name != "all"@
    &&& forall|i: int| 0 <= i < name.len() ==> alphanumeric(#[trigger] name[i])
}

/// `TypesBuilder::new`: a builder without definitions or selections.
#[verifier::external_body]
fn new_builder() -> (builder: TypesBuilder)
    ensures
        builder_definitions(builder) == no_definitions(),
        builder_selections(builder) == Seq::<Seq<char>>::empty(),
{
    TypesBuilder::new()
}

/// `TypesBuilder::add`: puts the glob behind the globs that the named type
/// has, and defines the type where it had none. It fails, and changes
/// nothing, exactly where the name is `all` or holds a character that is
/// neither a letter nor a number.
#[verifier::external_body]
fn add_definition(builder: &mut TypesBuilder, name: &str, glob: &str) -> (added: Result<
    (),
    ignore::Error,
>)
    ensures
        added is Ok <==> is_type_name(name@),
        builder_definitions(*final(builder)) == if added is Ok {
            with_glob(builder_definitions(*old(builder)), name@, glob@)
        } else {
            builder_definitions(*old(builder))
        },
        builder_selections(*final(builder)) == builder_selections(*old(builder)),
{
    builder.add(name, glob)
}

/// `TypesBuilder::select`: selects the named type. Of the name `all`, which
/// selects every defined type, the contract says nothing.
#[verifier::external_body]
fn select_type(builder: &mut TypesBuilder, name: &str)
    ensures
        name@ != "all"@ ==> builder_selections(*final(builder)) == builder_selections(
            *old(builder),
        ).push(name@),
        builder_definitions(*final(builder)) == builder_definitions(*old(builder)),
{
    builder.select(name);
}

/// `TypesBuilder::add_defaults`: adds the globs of the crate's built-in
/// table. Every type that was defined stays defined, and keeps its globs at
/// the front of those it has afterwards. Nothing is selected.
#[verifier::external_body]
fn add_default_definitions(builder: &mut TypesBuilder)
    ensures
        builder_definitions(*final(builder)) == with_defaults(builder_definitions(*old(builder))),
        forall|name: Seq<char>| #[trigger]
            builder_definitions(*old(builder)).dom().contains(name) ==> builder_definitions(
                *final(builder),
            ).dom().contains(name) && builder_definitions(*old(builder))[name].is_prefix_of(
                builder_definitions(*final(builder))[name],
            ),
        builder_selections(*final(builder)) == builder_selections(*old(builder)),
{
    builder.add_defaults();
}

/// `TypesBuilder::build`: whether it makes a matcher depends on the
/// definitions and the selections alone, and with nothing selected it
/// always does. The matcher selects what the builder selected.
#[verifier::external_body]
fn build_matcher(builder: &TypesBuilder) -> (built: Result<Types, ignore::Error>)
    ensures
        built is Ok <==> matcher_builds(
            builder_definitions(*builder),
            builder_selections(*builder),
        ),
        builder_selections(*builder).len() == 0 ==> built is Ok,
        built matches Ok(matcher) ==> matcher_selections(matcher) == builder_selections(*builder),
{
    builder.build()
}

/// The message of an `ignore::Error`, as its `Display` writes it.
#[verifier::external_body]
fn error_text(error: &ignore::Error) -> (message: String) {
    format!("{}", error)
}

/// Why no matcher could be made.
#[derive(Debug, PartialEq, Eq)]
pub enum ConfigError {
    /// The extension cannot name a file type.
    InvalidExtension(String),
    /// The matcher could not be built from the definitions; the text says why.
    Matcher(String),
}

/// Whether `name` can name a file type.
pub fn valid_type_name(name: &str) -> (valid: bool)
    ensures
        valid == is_type_name(name@),
{
    let chars = to_chars(name);
    if spells(&chars, "all") {
        return false;
    }
    let mut i: usize = 0;
    while i < chars.len()
        invariant
            i <= chars.len(),
            chars@ == name@,
            forall|j: int| 0 <= j < i ==> alphanumeric(#[trigger] name@[j]),
        decreases chars.len() - i,
    {
        if !chars[i].is_alphanumeric() {
            return false;
        }
        i = i + 1;
    }
    true
}

/// The position of the first text of `names` that is no type name, or the
/// length of `names` where all of them are.
pub open spec fn first_invalid(names: Seq<Seq<char>>) -> int
    decreases names.len(),
{
    if names.len() == 0 {
        0
    } else if !is_type_name(names.first()) {
        0
    } else {
        1 + first_invalid(names.drop_first())
    }
}

/// The glob that recognises the files of an extension.
pub open spec fn glob_of(extension: Seq<char>) -> Seq<char> {
    "*."@ + extension
}

/// The definitions made for a list of extensions: each extension names a
/// type, and its glob is put behind the globs that the type has. An
/// extension that comes twice gives its type the glob twice.
pub open spec fn definitions_of(extensions: Seq<Seq<char>>) -> Map<Seq<char>, Seq<Seq<char>>>
    decreases extensions.len(),
{
    if extensions.len() == 0 {
        no_definitions()
    } else {
        with_glob(
            definitions_of(extensions.drop_last()),
            extensions.last(),
            glob_of(extensions.last()),
        )
    }
}

/// The definitions of a builder that holds only the built-in table.
pub open spec fn default_definitions() -> Map<Seq<char>, Seq<Seq<char>>> {
    with_defaults(no_definitions())
}

/// Whether a matcher is owed for the given extensions: each can name a
/// type, and the builder makes a matcher of their definitions. With no
/// extension nothing is selected, and a matcher is always made.
pub open spec fn matcher_owed(extensions: Seq<Seq<char>>) -> bool {
    &&& first_invalid(extensions) == extensions.len()
    &&& extensions.len() == 0 || matcher_builds(definitions_of(extensions), extensions)
}

proof fn lemma_first_invalid(names: Seq<Seq<char>>, n: int)
    requires
        0 <= n <= names.len(),
        forall|j: int| 0 <= j < n ==> is_type_name(#[trigger] names[j]),
        n < names.len() ==> !is_type_name(names[n]),
    ensures
        first_invalid(names) == n,
    decreases n,
{
    if n > 0 {
        let rest = names.drop_first();
        assert forall|j: int| 0 <= j < n - 1 implies is_type_name(#[trigger] rest[j]) by {
            assert(rest[j] == names[j + 1]);
        }
        lemma_first_invalid(rest, n - 1);
    }
}

/// Fills a builder for the given extensions: one definition and one
/// selection for each, in order. With no extension the built-in definitions
/// are added and nothing is selected, so that the matcher made of them
/// turns no file away. The first extension that cannot name a type is
/// reported, and nothing else fails.
pub fn prepare_builder(extensions: &Vec<String>) -> (prepared: Result<TypesBuilder, ConfigError>)
    ensures
        match prepared {
            Ok(builder) => {
                &&& first_invalid(texts(extensions@)) == extensions.len()
                &&& builder_selections(builder) == texts(extensions@)
                &&& builder_definitions(builder) == if extensions.len() == 0 {
                    default_definitions()
                } else {
                    definitions_of(texts(extensions@))
                }
            },
            Err(ConfigError::InvalidExtension(extension)) => {
                &&& first_invalid(texts(extensions@)) < extensions.len()
                &&& extension@ == texts(extensions@)[first_invalid(texts(extensions@))]
            },
            Err(ConfigError::Matcher(_)) => false,
        },
{
    let ghost names = texts(extensions@);
    let mut builder = new_builder();
    if extensions.len() == 0 {
        add_default_definitions(&mut builder);
        proof {
            lemma_first_invalid(names, 0);
            assert(builder_selections(builder) =~= names);
        }
        return Ok(builder);
    }
    let mut i: usize = 0;
    assert(names.take(0) =~= Seq::<Seq<char>>::empty());
    while i < extensions.len()
        invariant
            i <= extensions.len(),
            names == texts(extensions@),
            forall|j: int| 0 <= j < i ==> is_type_name(#[trigger] names[j]),
            builder_selections(builder) == names.take(i as int),
            builder_definitions(builder) == definitions_of(names.take(i as int)),
        decreases extensions.len() - i,
    {
        let extension = extensions[i].as_str();
        assert(names[i as int] == extension@);
        let mut glob = String::from_str("*.");
        glob.append(extension);
        let added = add_definition(&mut builder, extension, glob.as_str());
        if added.is_err() {
            proof {
                lemma_first_invalid(names, i as int);
            }
            return Err(ConfigError::InvalidExtension(extensions[i].clone()));
        }
        select_type(&mut builder, extension);
        proof {
            assert(names.take(i + 1).drop_last() =~= names.take(i as int));
            assert(names.take(i + 1).last() == names[i as int]);
            assert(names.take(i + 1) =~= names.take(i as int).push(names[i as int]));
        }
        i = i + 1;
    }
    proof {
        lemma_first_invalid(names, i as int);
        assert(names.take(i as int) =~= names);
    }
    Ok(builder)
}

/// Turns what the builder's `build` returned into the library's result: a
/// matcher is handed on as it is, and a failure becomes a `Matcher` error.
pub fn matcher_outcome(built: Result<Types, ignore::Error>) -> (outcome: Result<
    Types,
    ConfigError,
>)
    ensures
        match built {
            Ok(matcher) => outcome == Ok::<Types, ConfigError>(matcher),
            Err(_) => outcome matches Err(ConfigError::Matcher(_)),
        },
{
    match built {
        Ok(matcher) => Ok(matcher),
        Err(error) => Err(ConfigError::Matcher(error_text(&error))),
    }
}

/// Builds the matcher for the given extensions. A matcher comes back
/// exactly where one is owed, and it selects the extensions, in order. An
/// extension that cannot name a type is reported before anything is built,
/// the first of them where there are several; where the builder makes no
/// matcher of valid extensions, a `Matcher` error comes back.
pub fn build_type_matcher(extensions: &Vec<String>) -> (outcome: Result<Types, ConfigError>)
    ensures
        outcome is Ok <==> matcher_owed(texts(extensions@)),
        match outcome {
            Ok(matcher) => matcher_selections(matcher) == texts(extensions@),
            Err(ConfigError::InvalidExtension(extension)) => {
                &&& first_invalid(texts(extensions@)) < extensions.len()
                &&& extension@ == texts(extensions@)[first_invalid(texts(extensions@))]
            },
            Err(ConfigError::Matcher(_)) => first_invalid(texts(extensions@)) == extensions.len(),
        },
{
    match prepare_builder(extensions) {
        Ok(builder) => matcher_outcome(build_matcher(&builder)),
        Err(error) => Err(error),
    }
}

} // verus!
