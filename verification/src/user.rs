//! The schema registry: the record descriptors of the user entity and of the
//! entities nested in it, and the generation of user documents.

use crate::assemble::{distinct_keys, lemma_absent_field_omitted, same_document, Document};
use crate::assemble::{lemma_equal_content_assembles_alike, lemma_same_descriptor_assembles_alike};
use crate::engine::{after_runs, generated, produce, produce_many, produced};
use crate::engine::lemma_same_descriptor_generates_alike;
use crate::failure::Failure;
use crate::grammar::{choice_of, joined, literal_of, repeat_of, span, span_of};
use crate::grammar::{part_ok, pieces_accept, splits_at};
use crate::grammar::{Grammar, Piece, PieceView};
use crate::schema::{same_descriptor, Descriptor, Field, NumericKind, Predicate, Value};
use crate::source::RandomSource;
use vstd::prelude::*;

verus! {

/// The percentage of cases in which an optional field of these schemas is
/// present.
pub const PRESENCE: u8 = 50;

/// The lower-case letters.
pub open spec fn lower_class() -> Seq<u8> {
    span_of(0x61, 0x7a)
}

/// The upper-case letters.
pub open spec fn upper_class() -> Seq<u8> {
    span_of(0x41, 0x5a)
}

/// The digits.
pub open spec fn digit_class() -> Seq<u8> {
    span_of(0x30, 0x39)
}

/// The printable characters, the space included.
pub open spec fn printable_class() -> Seq<u8> {
    span_of(0x20, 0x7e)
}

/// The digits 1 and 2.
pub open spec fn one_two_class() -> Seq<u8> {
    span_of(0x31, 0x32)
}

/// The letters, lower case first.
pub open spec fn letter_class() -> Seq<u8> {
    lower_class() + upper_class()
}

/// The letters and the digits.
pub open spec fn alnum_class() -> Seq<u8> {
    letter_class() + digit_class()
}

/// The letters, the digits and the space.
pub open spec fn alnum_space_class() -> Seq<u8> {
    alnum_class() + span_of(0x20, 0x20)
}

/// The letters and the space.
pub open spec fn letter_space_class() -> Seq<u8> {
    letter_class() + span_of(0x20, 0x20)
}

/// The letters and the hyphen.
pub open spec fn letter_hyphen_class() -> Seq<u8> {
    letter_class() + span_of(0x2d, 0x2d)
}

/// The lower-case letters, the digits and the underscore.
pub open spec fn lower_digit_underscore_class() -> Seq<u8> {
    lower_class() + digit_class() + span_of(0x5f, 0x5f)
}

fn lower() -> (class: Vec<u8>)
    ensures
        class@ == lower_class(),
        class@.len() > 0,
{
    span(0x61, 0x7a)
}

fn upper() -> (class: Vec<u8>)
    ensures
        class@ == upper_class(),
        class@.len() > 0,
{
    span(0x41, 0x5a)
}

fn digit() -> (class: Vec<u8>)
    ensures
        class@ == digit_class(),
        class@.len() > 0,
{
    span(0x30, 0x39)
}

fn printable() -> (class: Vec<u8>)
    ensures
        class@ == printable_class(),
        class@.len() > 0,
{
    span(0x20, 0x7e)
}

fn one_two() -> (class: Vec<u8>)
    ensures
        class@ == one_two_class(),
        class@.len() > 0,
{
    span(0x31, 0x32)
}

fn letter() -> (class: Vec<u8>)
    ensures
        class@ == letter_class(),
        class@.len() > 0,
{
    joined(lower(), &upper())
}

fn alnum() -> (class: Vec<u8>)
    ensures
        class@ == alnum_class(),
        class@.len() > 0,
{
    joined(letter(), &digit())
}

fn alnum_space() -> (class: Vec<u8>)
    ensures
        class@ == alnum_space_class(),
        class@.len() > 0,
{
    joined(alnum(), &span(0x20, 0x20))
}

fn letter_space() -> (class: Vec<u8>)
    ensures
        class@ == letter_space_class(),
        class@.len() > 0,
{
    joined(letter(), &span(0x20, 0x20))
}

fn letter_hyphen() -> (class: Vec<u8>)
    ensures
        class@ == letter_hyphen_class(),
        class@.len() > 0,
{
    joined(letter(), &span(0x2d, 0x2d))
}

fn lower_digit_underscore() -> (class: Vec<u8>)
    ensures
        class@ == lower_digit_underscore_class(),
        class@.len() > 0,
{
    joined(joined(lower(), &digit()), &span(0x5f, 0x5f))
}

/// Between 20 and 100 letters, digits and spaces.
pub open spec fn about_pattern() -> Seq<PieceView> {
    seq![repeat_of(alnum_space_class(), 20, 100)]
}

/// A local part of 2 to 20 letters and digits, `@`, a domain of 2 to 10 lower-case
/// letters, a dot, and one of three top-level domains.
pub open spec fn email_pattern() -> Seq<PieceView> {
    seq![repeat_of(alnum_class(), 2, 20), literal_of("@"), repeat_of(lower_class(), 2, 10), literal_of("."), choice_of("com", "org", "edu")]
}

/// The address of a GitHub profile: 1 to 20 letters and hyphens after the host.
pub open spec fn github_pattern() -> Seq<PieceView> {
    seq![literal_of("https://github.com/"), repeat_of(letter_hyphen_class(), 1, 20)]
}

/// Between 20 and 100 letters and digits.
pub open spec fn linkedin_pattern() -> Seq<PieceView> {
    seq![repeat_of(alnum_class(), 20, 100)]
}

/// Between 1 and 20 letters and spaces.
pub open spec fn name_pattern() -> Seq<PieceView> {
    seq![repeat_of(letter_space_class(), 1, 20)]
}

/// A secure address with a host of 1 to 20 letters.
pub open spec fn picture_pattern() -> Seq<PieceView> {
    seq![literal_of("https://"), repeat_of(letter_class(), 1, 20)]
}

/// The address of a Twitter profile: 1 to 20 letters after the host.
pub open spec fn twitter_pattern() -> Seq<PieceView> {
    seq![literal_of("https://twitter.com/"), repeat_of(letter_class(), 1, 20)]
}

/// A lower-case letter, then 1 to 25 lower-case letters, digits and underscores.
pub open spec fn username_pattern() -> Seq<PieceView> {
    seq![repeat_of(lower_class(), 1, 1), repeat_of(lower_digit_underscore_class(), 1, 25)]
}

/// Between 1 and 20 letters.
pub open spec fn display_name_pattern() -> Seq<PieceView> {
    seq![repeat_of(letter_class(), 1, 20)]
}

/// A secure address with a host of 1 to 20 letters under `.com`.
pub open spec fn website_pattern() -> Seq<PieceView> {
    seq![literal_of("https://"), repeat_of(letter_class(), 1, 20), literal_of(".com")]
}

/// A year from 2010 to 2029.
pub open spec fn year_pattern() -> Seq<PieceView> {
    seq![literal_of("20"), repeat_of(one_two_class(), 1, 1), repeat_of(digit_class(), 1, 1)]
}

/// Exactly 24 letters and digits.
pub open spec fn id_pattern() -> Seq<PieceView> {
    seq![repeat_of(alnum_class(), 24, 24)]
}

/// Between 50 and 300 letters, digits and spaces.
pub open spec fn solution_pattern() -> Seq<PieceView> {
    seq![repeat_of(alnum_space_class(), 50, 300)]
}

/// A dot and 2 to 4 lower-case letters.
pub open spec fn extension_pattern() -> Seq<PieceView> {
    seq![literal_of("."), repeat_of(lower_class(), 2, 4)]
}

/// Between 2 and 4 lower-case letters.
pub open spec fn short_word_pattern() -> Seq<PieceView> {
    seq![repeat_of(lower_class(), 2, 4)]
}

/// Up to 32 printable characters.
pub open spec fn contents_pattern() -> Seq<PieceView> {
    seq![repeat_of(printable_class(), 0, 32)]
}

fn about_grammar() -> (grammar: Grammar)
    ensures
        grammar@ == about_pattern(),
        grammar.wf(),
{
    let mut pieces: Vec<Piece> = Vec::new();
    pieces.push(Piece::repeat(alnum_space(), 20, 100));
    let grammar = Grammar::of(pieces);
    assert(grammar@ =~= about_pattern());
    grammar
}

fn email_grammar() -> (grammar: Grammar)
    ensures
        grammar@ == email_pattern(),
        grammar.wf(),
{
    let mut pieces: Vec<Piece> = Vec::new();
    pieces.push(Piece::repeat(alnum(), 2, 20));
    pieces.push(Piece::literal("@"));
    pieces.push(Piece::repeat(lower(), 2, 10));
    pieces.push(Piece::literal("."));
    pieces.push(Piece::choice("com", "org", "edu"));
    let grammar = Grammar::of(pieces);
    assert(grammar@ =~= email_pattern());
    grammar
}

fn github_grammar() -> (grammar: Grammar)
    ensures
        grammar@ == github_pattern(),
        grammar.wf(),
{
    let mut pieces: Vec<Piece> = Vec::new();
    pieces.push(Piece::literal("https://github.com/"));
    pieces.push(Piece::repeat(letter_hyphen(), 1, 20));
    let grammar = Grammar::of(pieces);
    assert(grammar@ =~= github_pattern());
    grammar
}

fn linkedin_grammar() -> (grammar: Grammar)
    ensures
        grammar@ == linkedin_pattern(),
        grammar.wf(),
{
    let mut pieces: Vec<Piece> = Vec::new();
    pieces.push(Piece::repeat(alnum(), 20, 100));
    let grammar = Grammar::of(pieces);
    assert(grammar@ =~= linkedin_pattern());
    grammar
}

fn name_grammar() -> (grammar: Grammar)
    ensures
        grammar@ == name_pattern(),
        grammar.wf(),
{
    let mut pieces: Vec<Piece> = Vec::new();
    pieces.push(Piece::repeat(letter_space(), 1, 20));
    let grammar = Grammar::of(pieces);
    assert(grammar@ =~= name_pattern());
    grammar
}

fn picture_grammar() -> (grammar: Grammar)
    ensures
        grammar@ == picture_pattern(),
        grammar.wf(),
{
    let mut pieces: Vec<Piece> = Vec::new();
    pieces.push(Piece::literal("https://"));
    pieces.push(Piece::repeat(letter(), 1, 20));
    let grammar = Grammar::of(pieces);
    assert(grammar@ =~= picture_pattern());
    grammar
}

fn twitter_grammar() -> (grammar: Grammar)
    ensures
        grammar@ == twitter_pattern(),
        grammar.wf(),
{
    let mut pieces: Vec<Piece> = Vec::new();
    pieces.push(Piece::literal("https://twitter.com/"));
    pieces.push(Piece::repeat(letter(), 1, 20));
    let grammar = Grammar::of(pieces);
    assert(grammar@ =~= twitter_pattern());
    grammar
}

fn username_grammar() -> (grammar: Grammar)
    ensures
        grammar@ == username_pattern(),
        grammar.wf(),
{
    let mut pieces: Vec<Piece> = Vec::new();
    pieces.push(Piece::repeat(lower(), 1, 1));
    pieces.push(Piece::repeat(lower_digit_underscore(), 1, 25));
    let grammar = Grammar::of(pieces);
    assert(grammar@ =~= username_pattern());
    grammar
}

fn display_name_grammar() -> (grammar: Grammar)
    ensures
        grammar@ == display_name_pattern(),
        grammar.wf(),
{
    let mut pieces: Vec<Piece> = Vec::new();
    pieces.push(Piece::repeat(letter(), 1, 20));
    let grammar = Grammar::of(pieces);
    assert(grammar@ =~= display_name_pattern());
    grammar
}

fn website_grammar() -> (grammar: Grammar)
    ensures
        grammar@ == website_pattern(),
        grammar.wf(),
{
    let mut pieces: Vec<Piece> = Vec::new();
    pieces.push(Piece::literal("https://"));
    pieces.push(Piece::repeat(letter(), 1, 20));
    pieces.push(Piece::literal(".com"));
    let grammar = Grammar::of(pieces);
    assert(grammar@ =~= website_pattern());
    grammar
}

fn year_grammar() -> (grammar: Grammar)
    ensures
        grammar@ == year_pattern(),
        grammar.wf(),
{
    let mut pieces: Vec<Piece> = Vec::new();
    pieces.push(Piece::literal("20"));
    pieces.push(Piece::repeat(one_two(), 1, 1));
    pieces.push(Piece::repeat(digit(), 1, 1));
    let grammar = Grammar::of(pieces);
    assert(grammar@ =~= year_pattern());
    grammar
}

fn id_grammar() -> (grammar: Grammar)
    ensures
        grammar@ == id_pattern(),
        grammar.wf(),
{
    let mut pieces: Vec<Piece> = Vec::new();
    pieces.push(Piece::repeat(alnum(), 24, 24));
    let grammar = Grammar::of(pieces);
    assert(grammar@ =~= id_pattern());
    grammar
}

fn solution_grammar() -> (grammar: Grammar)
    ensures
        grammar@ == solution_pattern(),
        grammar.wf(),
{
    let mut pieces: Vec<Piece> = Vec::new();
    pieces.push(Piece::repeat(alnum_space(), 50, 300));
    let grammar = Grammar::of(pieces);
    assert(grammar@ =~= solution_pattern());
    grammar
}

fn extension_grammar() -> (grammar: Grammar)
    ensures
        grammar@ == extension_pattern(),
        grammar.wf(),
{
    let mut pieces: Vec<Piece> = Vec::new();
    pieces.push(Piece::literal("."));
    pieces.push(Piece::repeat(lower(), 2, 4));
    let grammar = Grammar::of(pieces);
    assert(grammar@ =~= extension_pattern());
    grammar
}

fn short_word_grammar() -> (grammar: Grammar)
    ensures
        grammar@ == short_word_pattern(),
        grammar.wf(),
{
    let mut pieces: Vec<Piece> = Vec::new();
    pieces.push(Piece::repeat(lower(), 2, 4));
    let grammar = Grammar::of(pieces);
    assert(grammar@ =~= short_word_pattern());
    grammar
}

fn contents_grammar() -> (grammar: Grammar)
    ensures
        grammar@ == contents_pattern(),
        grammar.wf(),
{
    let mut pieces: Vec<Piece> = Vec::new();
    pieces.push(Piece::repeat(printable(), 0, 32));
    let grammar = Grammar::of(pieces);
    assert(grammar@ =~= contents_pattern());
    grammar
}

/// The field has the name and the key.
pub open spec fn named(field: Field, name: &str, key: &str) -> bool {
    field.name@ == name@ && field.key@ == key@
}

/// A truth value.
pub open spec fn is_flag(descriptor: Descriptor) -> bool {
    descriptor is Boolean
}

/// A text of the pattern.
pub open spec fn is_text(descriptor: Descriptor, pattern: Seq<PieceView>) -> bool {
    descriptor matches Descriptor::Literal(grammar) && grammar@ == pattern
}

/// A number of the kind under the predicate.
pub open spec fn is_number(descriptor: Descriptor, kind: NumericKind, predicate: Predicate) -> bool {
    descriptor matches Descriptor::Numeric(k, p) && k == kind && p == predicate
}

/// An optional value, present in half of the cases.
pub open spec fn is_optional(descriptor: Descriptor) -> bool {
    descriptor matches Descriptor::Optional(_, percent) && percent == PRESENCE
}

/// A sequence of `min` to `max` items, both included.
pub open spec fn is_list(descriptor: Descriptor, min: usize, max: usize) -> bool {
    descriptor matches Descriptor::Sequence(_, low, high) && low == min && high == max
}

/// What an optional descriptor wraps.
pub open spec fn wrapped(descriptor: Descriptor) -> Descriptor {
    *descriptor->Optional_0
}

/// What the items of a sequence descriptor are.
pub open spec fn item(descriptor: Descriptor) -> Descriptor {
    *descriptor->Sequence_0
}

/// Every field can be generated from, and none holds a sequence of optional
/// items.
pub open spec fn fields_sound(fields: Seq<Field>) -> bool {
    forall|i: int|
        0 <= i < fields.len() ==> (#[trigger] fields[i]).descriptor.wf()
            && fields[i].descriptor.sparse_below()
}

fn field(name: &str, key: &str, descriptor: Descriptor) -> (field: Field)
    ensures
        named(field, name, key),
        field.descriptor == descriptor,
{
    Field { name: name.to_owned(), key: key.to_owned(), descriptor }
}

fn flag() -> (descriptor: Descriptor)
    ensures
        is_flag(descriptor),
        descriptor.wf(),
        descriptor.sparse(),
{
    Descriptor::Boolean
}

fn text(grammar: Grammar) -> (descriptor: Descriptor)
    requires
        grammar.wf(),
    ensures
        is_text(descriptor, grammar@),
        descriptor.wf(),
        descriptor.sparse(),
{
    Descriptor::Literal(grammar)
}

fn number(kind: NumericKind, predicate: Predicate) -> (descriptor: Descriptor)
    ensures
        is_number(descriptor, kind, predicate),
        descriptor.wf(),
        descriptor.sparse(),
{
    Descriptor::Numeric(kind, predicate)
}

fn optional(inner: Descriptor) -> (descriptor: Descriptor)
    requires
        inner.wf(),
        inner.sparse_below(),
    ensures
        is_optional(descriptor),
        wrapped(descriptor) == inner,
        descriptor.wf(),
        descriptor.sparse_below(),
{
    Descriptor::Optional(Box::new(inner), PRESENCE)
}

fn list(inner: Descriptor, min: usize, max: usize) -> (descriptor: Descriptor)
    requires
        inner.wf(),
        inner.sparse(),
        min <= max,
    ensures
        is_list(descriptor, min, max),
        item(descriptor) == inner,
        descriptor.wf(),
        descriptor.sparse(),
{
    Descriptor::Sequence(Box::new(inner), min, max)
}

fn attach(fields: &mut Vec<Field>, field: Field)
    requires
        fields_sound(old(fields)@),
        field.descriptor.wf(),
        field.descriptor.sparse_below(),
    ensures
        final(fields)@ == old(fields)@.push(field),
        fields_sound(final(fields)@),
{
    fields.push(field);
}

fn record(fields: Vec<Field>) -> (descriptor: Descriptor)
    requires
        fields_sound(fields@),
    ensures
        descriptor == Descriptor::Record(fields),
        descriptor.wf(),
        descriptor.sparse(),
{
    Descriptor::Record(fields)
}

/// A file of a challenge: its contents, extension, key, name and path.
pub open spec fn is_file(descriptor: Descriptor) -> bool {
    &&& descriptor is Record
    &&& is_file_fields(descriptor->Record_0@)
}

/// The fields of the entity, each with its key and how it is generated.
pub open spec fn is_file_fields(fields: Seq<Field>) -> bool {
    &&& fields.len() == 5
    &&& named(fields[0], "contents", "contents") && is_text(fields[0].descriptor, contents_pattern())
    &&& named(fields[1], "ext", "ext") && is_text(fields[1].descriptor, extension_pattern())
    &&& named(fields[2], "key", "key") && is_text(fields[2].descriptor, short_word_pattern())
    &&& named(fields[3], "name", "name") && is_text(fields[3].descriptor, short_word_pattern())
    &&& named(fields[4], "path", "path") && is_text(fields[4].descriptor, short_word_pattern())
}

/// A moment of progress: a positive date and an identifier.
pub open spec fn is_timestamp(descriptor: Descriptor) -> bool {
    &&& descriptor is Record
    &&& is_timestamp_fields(descriptor->Record_0@)
}

/// The fields of the entity, each with its key and how it is generated.
pub open spec fn is_timestamp_fields(fields: Seq<Field>) -> bool {
    &&& fields.len() == 2
    &&& named(fields[0], "completed_date", "completedDate") && is_number(fields[0].descriptor, NumericKind::Integer, Predicate::Above(0))
    &&& named(fields[1], "id", "id") && is_text(fields[1].descriptor, id_pattern())
}

/// What a profile shows: ten truth values.
pub open spec fn is_profile_settings(descriptor: Descriptor) -> bool {
    &&& descriptor is Record
    &&& is_profile_settings_fields(descriptor->Record_0@)
}

/// The fields of the entity, each with its key and how it is generated.
pub open spec fn is_profile_settings_fields(fields: Seq<Field>) -> bool {
    &&& fields.len() == 10
    &&& named(fields[0], "is_locked", "isLocked") && is_flag(fields[0].descriptor)
    &&& named(fields[1], "show_about", "showAbout") && is_flag(fields[1].descriptor)
    &&& named(fields[2], "show_certs", "showCerts") && is_flag(fields[2].descriptor)
    &&& named(fields[3], "show_donation", "showDonation") && is_flag(fields[3].descriptor)
    &&& named(fields[4], "show_heat_map", "showHeatMap") && is_flag(fields[4].descriptor)
    &&& named(fields[5], "show_location", "showLocation") && is_flag(fields[5].descriptor)
    &&& named(fields[6], "show_name", "showName") && is_flag(fields[6].descriptor)
    &&& named(fields[7], "show_points", "showPoints") && is_flag(fields[7].descriptor)
    &&& named(fields[8], "show_portfolio", "showPortfolio") && is_flag(fields[8].descriptor)
    &&& named(fields[9], "show_time_line", "showTimeLine") && is_flag(fields[9].descriptor)
}

/// A completed challenge with up to nine files.
pub open spec fn is_completed_challenge(descriptor: Descriptor) -> bool {
    &&& descriptor is Record
    &&& is_completed_challenge_fields(descriptor->Record_0@)
}

/// The fields of the entity, each with its key and how it is generated.
pub open spec fn is_completed_challenge_fields(fields: Seq<Field>) -> bool {
    &&& fields.len() == 7
    &&& named(fields[0], "challenge_type", "challengeType") && is_number(fields[0].descriptor, NumericKind::Byte, Predicate::Any)
    &&& named(fields[1], "completed_date", "completedDate") && is_number(fields[1].descriptor, NumericKind::Integer, Predicate::Above(0))
    &&& named(fields[2], "files", "files") && is_list(fields[2].descriptor, 0, 9) && is_file(item(fields[2].descriptor))
    &&& named(fields[3], "github_link", "githubLink") && is_optional(fields[3].descriptor) && is_text(wrapped(fields[3].descriptor), github_pattern())
    &&& named(fields[4], "id", "id") && is_text(fields[4].descriptor, id_pattern())
    &&& named(fields[5], "is_manually_approved", "isManuallyApproved") && is_flag(fields[5].descriptor)
    &&& named(fields[6], "solution", "solution") && is_text(fields[6].descriptor, solution_pattern())
}

/// A saved challenge with up to nine files.
pub open spec fn is_saved_challenge(descriptor: Descriptor) -> bool {
    &&& descriptor is Record
    &&& is_saved_challenge_fields(descriptor->Record_0@)
}

/// The fields of the entity, each with its key and how it is generated.
pub open spec fn is_saved_challenge_fields(fields: Seq<Field>) -> bool {
    &&& fields.len() == 4
    &&& named(fields[0], "challenge_type", "challengeType") && is_number(fields[0].descriptor, NumericKind::Byte, Predicate::Any)
    &&& named(fields[1], "files", "files") && is_list(fields[1].descriptor, 0, 9) && is_file(item(fields[1].descriptor))
    &&& named(fields[2], "id", "id") && is_text(fields[2].descriptor, id_pattern())
    &&& named(fields[3], "last_saved_date", "lastSavedDate") && is_number(fields[3].descriptor, NumericKind::Integer, Predicate::Above(0))
}

/// A user: forty-six fields, in this order.
pub open spec fn is_user(descriptor: Descriptor) -> bool {
    &&& descriptor is Record
    &&& is_user_fields(descriptor->Record_0@)
}

/// The fields of the entity, each with its key and how it is generated.
pub open spec fn is_user_fields(fields: Seq<Field>) -> bool {
    &&& fields.len() == 46
    &&& user_fields_first(fields)
    &&& user_fields_second(fields)
    &&& user_fields_third(fields)
    &&& user_fields_fourth(fields)
    &&& user_fields_fifth(fields)
    &&& user_fields_sixth(fields)
}

/// Fields 0 to 7 of the entity.
pub open spec fn user_fields_first(fields: Seq<Field>) -> bool {
    &&& named(fields[0], "about", "about") && is_optional(fields[0].descriptor) && is_text(wrapped(fields[0].descriptor), about_pattern())
    &&& named(fields[1], "accepted_privacy_terms", "acceptedPrivacyTerms") && is_flag(fields[1].descriptor)
    &&& named(fields[2], "completed_challenges", "completedChallenges") && is_list(fields[2].descriptor, 0, 999) && is_completed_challenge(item(fields[2].descriptor))
    &&& named(fields[3], "email", "email") && is_text(fields[3].descriptor, email_pattern())
    &&& named(fields[4], "github_profile", "githubProfile") && is_optional(fields[4].descriptor) && is_text(wrapped(fields[4].descriptor), github_pattern())
    &&& named(fields[5], "is_apis_microservices_cert", "isApisMicroservicesCert") && is_flag(fields[5].descriptor)
    &&& named(fields[6], "is_back_end_cert", "isBackEndCert") && is_flag(fields[6].descriptor)
    &&& named(fields[7], "is_banned", "isBanned") && is_flag(fields[7].descriptor)
}

/// Fields 8 to 15 of the entity.
pub open spec fn user_fields_second(fields: Seq<Field>) -> bool {
    &&& named(fields[8], "is_cheater", "isCheater") && is_flag(fields[8].descriptor)
    &&& named(fields[9], "is_college_algebra_py_cert_v8", "isCollegeAlgebraPyCertV8") && is_flag(fields[9].descriptor)
    &&& named(fields[10], "is_data_analysis_py_cert_v7", "isDataAnalysisPyCertV7") && is_flag(fields[10].descriptor)
    &&& named(fields[11], "is_data_vis_cert", "isDataVisCert") && is_flag(fields[11].descriptor)
    &&& named(fields[12], "is_donating", "isDonating") && is_flag(fields[12].descriptor)
    &&& named(fields[13], "is_front_end_cert", "isFrontEndCert") && is_flag(fields[13].descriptor)
    &&& named(fields[14], "is_front_end_libs_cert", "isFrontEndLibsCert") && is_flag(fields[14].descriptor)
    &&& named(fields[15], "is_full_stack_cert", "isFullStackCert") && is_flag(fields[15].descriptor)
}

/// Fields 16 to 23 of the entity.
pub open spec fn user_fields_third(fields: Seq<Field>) -> bool {
    &&& named(fields[16], "is_foundational_c_sharp_cert_v8", "isFoundationalCSharpCertV8") && is_flag(fields[16].descriptor)
    &&& named(fields[17], "is_honest", "isHonest") && is_flag(fields[17].descriptor)
    &&& named(fields[18], "is_infosec_cert_v7", "isInfosecCertV7") && is_flag(fields[18].descriptor)
    &&& named(fields[19], "is_infosec_qa_cert", "isInfosecQaCert") && is_flag(fields[19].descriptor)
    &&& named(fields[20], "is_js_algo_data_struct_cert", "isJsAlgoDataStructCert") && is_flag(fields[20].descriptor)
    &&& named(fields[21], "is_js_algo_data_struct_cert_v8", "isJsAlgoDataStructCertV8") && is_flag(fields[21].descriptor)
    &&& named(fields[22], "is_machine_learning_py_cert_v7", "isMachineLearningPyCertV7") && is_flag(fields[22].descriptor)
    &&& named(fields[23], "is_qa_cert_v7", "isQaCertV7") && is_flag(fields[23].descriptor)
}

/// Fields 24 to 31 of the entity.
pub open spec fn user_fields_fourth(fields: Seq<Field>) -> bool {
    &&& named(fields[24], "is_relational_database_cert_v8", "isRelationalDatabaseCertV8") && is_flag(fields[24].descriptor)
    &&& named(fields[25], "is_resp_web_design_cert", "isRespWebDesignCert") && is_flag(fields[25].descriptor)
    &&& named(fields[26], "is_sci_comp_py_cert_v7", "isSciCompPyCertV7") && is_flag(fields[26].descriptor)
    &&& named(fields[27], "is_2018_data_vis_cert", "is2018DataVisCert") && is_flag(fields[27].descriptor)
    &&& named(fields[28], "is_2018_full_stack_cert", "is2018FullStackCert") && is_flag(fields[28].descriptor)
    &&& named(fields[29], "keyboard_shortcuts", "keyboardShortcuts") && is_optional(fields[29].descriptor) && is_flag(wrapped(fields[29].descriptor))
    &&& named(fields[30], "linkedin", "linkedin") && is_optional(fields[30].descriptor) && is_text(wrapped(fields[30].descriptor), linkedin_pattern())
    &&& named(fields[31], "name", "name") && is_optional(fields[31].descriptor) && is_text(wrapped(fields[31].descriptor), name_pattern())
}

/// Fields 32 to 39 of the entity.
pub open spec fn user_fields_fifth(fields: Seq<Field>) -> bool {
    &&& named(fields[32], "needs_moderation", "needsModeration") && is_optional(fields[32].descriptor) && is_flag(wrapped(fields[32].descriptor))
    &&& named(fields[33], "partially_completed_challenges", "partiallyCompletedChallenges") && is_optional(fields[33].descriptor) && is_list(wrapped(fields[33].descriptor), 0, 9) && is_timestamp(item(wrapped(fields[33].descriptor)))
    &&& named(fields[34], "picture", "picture") && is_optional(fields[34].descriptor) && is_text(wrapped(fields[34].descriptor), picture_pattern())
    &&& named(fields[35], "profile_ui", "profileUI") && is_profile_settings(fields[35].descriptor)
    &&& named(fields[36], "progress_timestamps", "progressTimestamps") && is_list(fields[36].descriptor, 0, 999) && is_timestamp(item(fields[36].descriptor))
    &&& named(fields[37], "rand", "rand") && is_number(fields[37].descriptor, NumericKind::Float, Predicate::Finite)
    &&& named(fields[38], "saved_challenges", "savedChallenges") && is_optional(fields[38].descriptor) && is_list(wrapped(fields[38].descriptor), 0, 9) && is_saved_challenge(item(wrapped(fields[38].descriptor)))
    &&& named(fields[39], "send_quincy_email", "sendQuincyEmail") && is_flag(fields[39].descriptor)
}

/// Fields 40 to 45 of the entity.
pub open spec fn user_fields_sixth(fields: Seq<Field>) -> bool {
    &&& named(fields[40], "sound", "sound") && is_optional(fields[40].descriptor) && is_flag(wrapped(fields[40].descriptor))
    &&& named(fields[41], "twitter", "twitter") && is_optional(fields[41].descriptor) && is_text(wrapped(fields[41].descriptor), twitter_pattern())
    &&& named(fields[42], "username", "username") && is_text(fields[42].descriptor, username_pattern())
    &&& named(fields[43], "username_display", "usernameDisplay") && is_optional(fields[43].descriptor) && is_text(wrapped(fields[43].descriptor), display_name_pattern())
    &&& named(fields[44], "website", "website") && is_optional(fields[44].descriptor) && is_text(wrapped(fields[44].descriptor), website_pattern())
    &&& named(fields[45], "years_top_contributor", "yearsTopContributor") && is_optional(fields[45].descriptor) && is_list(wrapped(fields[45].descriptor), 8, 8) && is_text(item(wrapped(fields[45].descriptor)), year_pattern())
}

/// The character of a key at a place, a space where the key is shorter.
pub open spec fn char_at(key: Seq<char>, place: int) -> char {
    if 0 <= place < key.len() {
        key[place]
    } else {
        ' '
    }
}

/// What tells the keys of these schemas apart: the length of a key and its
/// characters at the places 0, 6 and 9.
pub open spec fn marks(key: Seq<char>) -> (nat, char, char, char) {
    (key.len(), char_at(key, 0), char_at(key, 6), char_at(key, 9))
}

/// The keys of the entity, in the order of its fields.
pub open spec fn file_keys() -> Seq<Seq<char>> {
    seq![
        "contents"@,
        "ext"@,
        "key"@,
        "name"@,
        "path"@,
    ]
}

/// No two keys of the entity are the same.
pub proof fn lemma_file_keys_differ()
    ensures
        forall|a: int, b: int|
            0 <= a < b < 5 ==> #[trigger] file_keys()[a] != #[trigger] file_keys()[b],
{
    reveal_strlit("contents");
    reveal_strlit("ext");
    reveal_strlit("key");
    reveal_strlit("name");
    reveal_strlit("path");
    assert(file_keys()[0] == "contents"@ && marks("contents"@) == (8nat, 'c', 't', ' '));
    assert(file_keys()[1] == "ext"@ && marks("ext"@) == (3nat, 'e', ' ', ' '));
    assert(file_keys()[2] == "key"@ && marks("key"@) == (3nat, 'k', ' ', ' '));
    assert(file_keys()[3] == "name"@ && marks("name"@) == (4nat, 'n', ' ', ' '));
    assert(file_keys()[4] == "path"@ && marks("path"@) == (4nat, 'p', ' ', ' '));
}

/// The fields of the entity have distinct keys.
pub proof fn lemma_file_fields_have_distinct_keys(descriptor: Descriptor)
    requires
        is_file(descriptor),
    ensures
        distinct_keys(descriptor->Record_0@),
{
    let fields = descriptor->Record_0@;
    lemma_file_keys_differ();
    assert forall|a: int, b: int| 0 <= a < b < fields.len() implies (#[trigger] fields[a]).key@ != (
    #[trigger] fields[b]).key@ by {
        assert(fields[a].key@ == file_keys()[a]);
        assert(fields[b].key@ == file_keys()[b]);
    }
}

/// The keys of the entity, in the order of its fields.
pub open spec fn timestamp_keys() -> Seq<Seq<char>> {
    seq![
        "completedDate"@,
        "id"@,
    ]
}

/// No two keys of the entity are the same.
pub proof fn lemma_timestamp_keys_differ()
    ensures
        forall|a: int, b: int|
            0 <= a < b < 2 ==> #[trigger] timestamp_keys()[a] != #[trigger] timestamp_keys()[b],
{
    reveal_strlit("completedDate");
    reveal_strlit("id");
    assert(timestamp_keys()[0] == "completedDate"@ && marks("completedDate"@) == (13nat, 'c', 't', 'D'));
    assert(timestamp_keys()[1] == "id"@ && marks("id"@) == (2nat, 'i', ' ', ' '));
}

/// The fields of the entity have distinct keys.
pub proof fn lemma_timestamp_fields_have_distinct_keys(descriptor: Descriptor)
    requires
        is_timestamp(descriptor),
    ensures
        distinct_keys(descriptor->Record_0@),
{
    let fields = descriptor->Record_0@;
    lemma_timestamp_keys_differ();
    assert forall|a: int, b: int| 0 <= a < b < fields.len() implies (#[trigger] fields[a]).key@ != (
    #[trigger] fields[b]).key@ by {
        assert(fields[a].key@ == timestamp_keys()[a]);
        assert(fields[b].key@ == timestamp_keys()[b]);
    }
}

/// The keys of the entity, in the order of its fields.
pub open spec fn profile_settings_keys() -> Seq<Seq<char>> {
    seq![
        "isLocked"@,
        "showAbout"@,
        "showCerts"@,
        "showDonation"@,
        "showHeatMap"@,
        "showLocation"@,
        "showName"@,
        "showPoints"@,
        "showPortfolio"@,
        "showTimeLine"@,
    ]
}

/// No two keys of the entity are the same.
pub proof fn lemma_profile_settings_keys_differ()
    ensures
        forall|a: int, b: int|
            0 <= a < b < 10 ==> #[trigger] profile_settings_keys()[a] != #[trigger] profile_settings_keys()[b],
{
    reveal_strlit("isLocked");
    reveal_strlit("showAbout");
    reveal_strlit("showCerts");
    reveal_strlit("showDonation");
    reveal_strlit("showHeatMap");
    reveal_strlit("showLocation");
    reveal_strlit("showName");
    reveal_strlit("showPoints");
    reveal_strlit("showPortfolio");
    reveal_strlit("showTimeLine");
    assert(profile_settings_keys()[0] == "isLocked"@ && marks("isLocked"@) == (8nat, 'i', 'e', ' '));
    assert(profile_settings_keys()[1] == "showAbout"@ && marks("showAbout"@) == (9nat, 's', 'o', ' '));
    assert(profile_settings_keys()[2] == "showCerts"@ && marks("showCerts"@) == (9nat, 's', 'r', ' '));
    assert(profile_settings_keys()[3] == "showDonation"@ && marks("showDonation"@) == (12nat, 's', 'n', 'i'));
    assert(profile_settings_keys()[4] == "showHeatMap"@ && marks("showHeatMap"@) == (11nat, 's', 'a', 'a'));
    assert(profile_settings_keys()[5] == "showLocation"@ && marks("showLocation"@) == (12nat, 's', 'c', 'i'));
    assert(profile_settings_keys()[6] == "showName"@ && marks("showName"@) == (8nat, 's', 'm', ' '));
    assert(profile_settings_keys()[7] == "showPoints"@ && marks("showPoints"@) == (10nat, 's', 'i', 's'));
    assert(profile_settings_keys()[8] == "showPortfolio"@ && marks("showPortfolio"@) == (13nat, 's', 'r', 'o'));
    assert(profile_settings_keys()[9] == "showTimeLine"@ && marks("showTimeLine"@) == (12nat, 's', 'm', 'i'));
}

/// The fields of the entity have distinct keys.
pub proof fn lemma_profile_settings_fields_have_distinct_keys(descriptor: Descriptor)
    requires
        is_profile_settings(descriptor),
    ensures
        distinct_keys(descriptor->Record_0@),
{
    let fields = descriptor->Record_0@;
    lemma_profile_settings_keys_differ();
    assert forall|a: int, b: int| 0 <= a < b < fields.len() implies (#[trigger] fields[a]).key@ != (
    #[trigger] fields[b]).key@ by {
        assert(fields[a].key@ == profile_settings_keys()[a]);
        assert(fields[b].key@ == profile_settings_keys()[b]);
    }
}

/// The keys of the entity, in the order of its fields.
pub open spec fn completed_challenge_keys() -> Seq<Seq<char>> {
    seq![
        "challengeType"@,
        "completedDate"@,
        "files"@,
        "githubLink"@,
        "id"@,
        "isManuallyApproved"@,
        "solution"@,
    ]
}

/// No two keys of the entity are the same.
pub proof fn lemma_completed_challenge_keys_differ()
    ensures
        forall|a: int, b: int|
            0 <= a < b < 7 ==> #[trigger] completed_challenge_keys()[a] != #[trigger] completed_challenge_keys()[b],
{
    reveal_strlit("challengeType");
    reveal_strlit("completedDate");
    reveal_strlit("files");
    reveal_strlit("githubLink");
    reveal_strlit("id");
    reveal_strlit("isManuallyApproved");
    reveal_strlit("solution");
    assert(completed_challenge_keys()[0] == "challengeType"@ && marks("challengeType"@) == (13nat, 'c', 'n', 'T'));
    assert(completed_challenge_keys()[1] == "completedDate"@ && marks("completedDate"@) == (13nat, 'c', 't', 'D'));
    assert(completed_challenge_keys()[2] == "files"@ && marks("files"@) == (5nat, 'f', ' ', ' '));
    assert(completed_challenge_keys()[3] == "githubLink"@ && marks("githubLink"@) == (10nat, 'g', 'L', 'k'));
    assert(completed_challenge_keys()[4] == "id"@ && marks("id"@) == (2nat, 'i', ' ', ' '));
    assert(completed_challenge_keys()[5] == "isManuallyApproved"@ && marks("isManuallyApproved"@) == (18nat, 'i', 'a', 'y'));
    assert(completed_challenge_keys()[6] == "solution"@ && marks("solution"@) == (8nat, 's', 'o', ' '));
}

/// The fields of the entity have distinct keys.
pub proof fn lemma_completed_challenge_fields_have_distinct_keys(descriptor: Descriptor)
    requires
        is_completed_challenge(descriptor),
    ensures
        distinct_keys(descriptor->Record_0@),
{
    let fields = descriptor->Record_0@;
    lemma_completed_challenge_keys_differ();
    assert forall|a: int, b: int| 0 <= a < b < fields.len() implies (#[trigger] fields[a]).key@ != (
    #[trigger] fields[b]).key@ by {
        assert(fields[a].key@ == completed_challenge_keys()[a]);
        assert(fields[b].key@ == completed_challenge_keys()[b]);
    }
}

/// The keys of the entity, in the order of its fields.
pub open spec fn saved_challenge_keys() -> Seq<Seq<char>> {
    seq![
        "challengeType"@,
        "files"@,
        "id"@,
        "lastSavedDate"@,
    ]
}

/// No two keys of the entity are the same.
pub proof fn lemma_saved_challenge_keys_differ()
    ensures
        forall|a: int, b: int|
            0 <= a < b < 4 ==> #[trigger] saved_challenge_keys()[a] != #[trigger] saved_challenge_keys()[b],
{
    reveal_strlit("challengeType");
    reveal_strlit("files");
    reveal_strlit("id");
    reveal_strlit("lastSavedDate");
    assert(saved_challenge_keys()[0] == "challengeType"@ && marks("challengeType"@) == (13nat, 'c', 'n', 'T'));
    assert(saved_challenge_keys()[1] == "files"@ && marks("files"@) == (5nat, 'f', ' ', ' '));
    assert(saved_challenge_keys()[2] == "id"@ && marks("id"@) == (2nat, 'i', ' ', ' '));
    assert(saved_challenge_keys()[3] == "lastSavedDate"@ && marks("lastSavedDate"@) == (13nat, 'l', 'v', 'D'));
}

/// The fields of the entity have distinct keys.
pub proof fn lemma_saved_challenge_fields_have_distinct_keys(descriptor: Descriptor)
    requires
        is_saved_challenge(descriptor),
    ensures
        distinct_keys(descriptor->Record_0@),
{
    let fields = descriptor->Record_0@;
    lemma_saved_challenge_keys_differ();
    assert forall|a: int, b: int| 0 <= a < b < fields.len() implies (#[trigger] fields[a]).key@ != (
    #[trigger] fields[b]).key@ by {
        assert(fields[a].key@ == saved_challenge_keys()[a]);
        assert(fields[b].key@ == saved_challenge_keys()[b]);
    }
}

/// The keys of the entity, in the order of its fields.
pub open spec fn user_keys() -> Seq<Seq<char>> {
    seq![
        "about"@,
        "acceptedPrivacyTerms"@,
        "completedChallenges"@,
        "email"@,
        "githubProfile"@,
        "isApisMicroservicesCert"@,
        "isBackEndCert"@,
        "isBanned"@,
        "isCheater"@,
        "isCollegeAlgebraPyCertV8"@,
        "isDataAnalysisPyCertV7"@,
        "isDataVisCert"@,
        "isDonating"@,
        "isFrontEndCert"@,
        "isFrontEndLibsCert"@,
        "isFullStackCert"@,
        "isFoundationalCSharpCertV8"@,
        "isHonest"@,
        "isInfosecCertV7"@,
        "isInfosecQaCert"@,
        "isJsAlgoDataStructCert"@,
        "isJsAlgoDataStructCertV8"@,
        "isMachineLearningPyCertV7"@,
        "isQaCertV7"@,
        "isRelationalDatabaseCertV8"@,
        "isRespWebDesignCert"@,
        "isSciCompPyCertV7"@,
        "is2018DataVisCert"@,
        "is2018FullStackCert"@,
        "keyboardShortcuts"@,
        "linkedin"@,
        "name"@,
        "needsModeration"@,
        "partiallyCompletedChallenges"@,
        "picture"@,
        "profileUI"@,
        "progressTimestamps"@,
        "rand"@,
        "savedChallenges"@,
        "sendQuincyEmail"@,
        "sound"@,
        "twitter"@,
        "username"@,
        "usernameDisplay"@,
        "website"@,
        "yearsTopContributor"@,
    ]
}

/// No two keys of the entity are the same.
pub proof fn lemma_user_keys_differ()
    ensures
        forall|a: int, b: int|
            0 <= a < b < 46 ==> #[trigger] user_keys()[a] != #[trigger] user_keys()[b],
{
    reveal_strlit("about");
    reveal_strlit("acceptedPrivacyTerms");
    reveal_strlit("completedChallenges");
    reveal_strlit("email");
    reveal_strlit("githubProfile");
    reveal_strlit("isApisMicroservicesCert");
    reveal_strlit("isBackEndCert");
    reveal_strlit("isBanned");
    reveal_strlit("isCheater");
    reveal_strlit("isCollegeAlgebraPyCertV8");
    reveal_strlit("isDataAnalysisPyCertV7");
    reveal_strlit("isDataVisCert");
    reveal_strlit("isDonating");
    reveal_strlit("isFrontEndCert");
    reveal_strlit("isFrontEndLibsCert");
    reveal_strlit("isFullStackCert");
    reveal_strlit("isFoundationalCSharpCertV8");
    reveal_strlit("isHonest");
    reveal_strlit("isInfosecCertV7");
    reveal_strlit("isInfosecQaCert");
    reveal_strlit("isJsAlgoDataStructCert");
    reveal_strlit("isJsAlgoDataStructCertV8");
    reveal_strlit("isMachineLearningPyCertV7");
    reveal_strlit("isQaCertV7");
    reveal_strlit("isRelationalDatabaseCertV8");
    reveal_strlit("isRespWebDesignCert");
    reveal_strlit("isSciCompPyCertV7");
    reveal_strlit("is2018DataVisCert");
    reveal_strlit("is2018FullStackCert");
    reveal_strlit("keyboardShortcuts");
    reveal_strlit("linkedin");
    reveal_strlit("name");
    reveal_strlit("needsModeration");
    reveal_strlit("partiallyCompletedChallenges");
    reveal_strlit("picture");
    reveal_strlit("profileUI");
    reveal_strlit("progressTimestamps");
    reveal_strlit("rand");
    reveal_strlit("savedChallenges");
    reveal_strlit("sendQuincyEmail");
    reveal_strlit("sound");
    reveal_strlit("twitter");
    reveal_strlit("username");
    reveal_strlit("usernameDisplay");
    reveal_strlit("website");
    reveal_strlit("yearsTopContributor");
    assert(user_keys()[0] == "about"@ && marks("about"@) == (5nat, 'a', ' ', ' '));
    assert(user_keys()[1] == "acceptedPrivacyTerms"@ && marks("acceptedPrivacyTerms"@) == (20nat, 'a', 'e', 'r'));
    assert(user_keys()[2] == "completedChallenges"@ && marks("completedChallenges"@) == (19nat, 'c', 't', 'C'));
    assert(user_keys()[3] == "email"@ && marks("email"@) == (5nat, 'e', ' ', ' '));
    assert(user_keys()[4] == "githubProfile"@ && marks("githubProfile"@) == (13nat, 'g', 'P', 'f'));
    assert(user_keys()[5] == "isApisMicroservicesCert"@ && marks("isApisMicroservicesCert"@) == (23nat, 'i', 'M', 'r'));
    assert(user_keys()[6] == "isBackEndCert"@ && marks("isBackEndCert"@) == (13nat, 'i', 'E', 'C'));
    assert(user_keys()[7] == "isBanned"@ && marks("isBanned"@) == (8nat, 'i', 'e', ' '));
    assert(user_keys()[8] == "isCheater"@ && marks("isCheater"@) == (9nat, 'i', 't', ' '));
    assert(user_keys()[9] == "isCollegeAlgebraPyCertV8"@ && marks("isCollegeAlgebraPyCertV8"@) == (24nat, 'i', 'e', 'A'));
    assert(user_keys()[10] == "isDataAnalysisPyCertV7"@ && marks("isDataAnalysisPyCertV7"@) == (22nat, 'i', 'A', 'l'));
    assert(user_keys()[11] == "isDataVisCert"@ && marks("isDataVisCert"@) == (13nat, 'i', 'V', 'C'));
    assert(user_keys()[12] == "isDonating"@ && marks("isDonating"@) == (10nat, 'i', 't', 'g'));
    assert(user_keys()[13] == "isFrontEndCert"@ && marks("isFrontEndCert"@) == (14nat, 'i', 't', 'd'));
    assert(user_keys()[14] == "isFrontEndLibsCert"@ && marks("isFrontEndLibsCert"@) == (18nat, 'i', 't', 'd'));
    assert(user_keys()[15] == "isFullStackCert"@ && marks("isFullStackCert"@) == (15nat, 'i', 'S', 'c'));
    assert(user_keys()[16] == "isFoundationalCSharpCertV8"@ && marks("isFoundationalCSharpCertV8"@) == (26nat, 'i', 'd', 'i'));
    assert(user_keys()[17] == "isHonest"@ && marks("isHonest"@) == (8nat, 'i', 's', ' '));
    assert(user_keys()[18] == "isInfosecCertV7"@ && marks("isInfosecCertV7"@) == (15nat, 'i', 's', 'C'));
    assert(user_keys()[19] == "isInfosecQaCert"@ && marks("isInfosecQaCert"@) == (15nat, 'i', 's', 'Q'));
    assert(user_keys()[20] == "isJsAlgoDataStructCert"@ && marks("isJsAlgoDataStructCert"@) == (22nat, 'i', 'g', 'a'));
    assert(user_keys()[21] == "isJsAlgoDataStructCertV8"@ && marks("isJsAlgoDataStructCertV8"@) == (24nat, 'i', 'g', 'a'));
    assert(user_keys()[22] == "isMachineLearningPyCertV7"@ && marks("isMachineLearningPyCertV7"@) == (25nat, 'i', 'i', 'L'));
    assert(user_keys()[23] == "isQaCertV7"@ && marks("isQaCertV7"@) == (10nat, 'i', 'r', '7'));
    assert(user_keys()[24] == "isRelationalDatabaseCertV8"@ && marks("isRelationalDatabaseCertV8"@) == (26nat, 'i', 't', 'n'));
    assert(user_keys()[25] == "isRespWebDesignCert"@ && marks("isRespWebDesignCert"@) == (19nat, 'i', 'W', 'D'));
    assert(user_keys()[26] == "isSciCompPyCertV7"@ && marks("isSciCompPyCertV7"@) == (17nat, 'i', 'o', 'P'));
    assert(user_keys()[27] == "is2018DataVisCert"@ && marks("is2018DataVisCert"@) == (17nat, 'i', 'D', 'a'));
    assert(user_keys()[28] == "is2018FullStackCert"@ && marks("is2018FullStackCert"@) == (19nat, 'i', 'F', 'l'));
    assert(user_keys()[29] == "keyboardShortcuts"@ && marks("keyboardShortcuts"@) == (17nat, 'k', 'r', 'h'));
    assert(user_keys()[30] == "linkedin"@ && marks("linkedin"@) == (8nat, 'l', 'i', ' '));
    assert(user_keys()[31] == "name"@ && marks("name"@) == (4nat, 'n', ' ', ' '));
    assert(user_keys()[32] == "needsModeration"@ && marks("needsModeration"@) == (15nat, 'n', 'o', 'r'));
    assert(user_keys()[33] == "partiallyCompletedChallenges"@ && marks("partiallyCompletedChallenges"@) == (28nat, 'p', 'l', 'C'));
    assert(user_keys()[34] == "picture"@ && marks("picture"@) == (7nat, 'p', 'e', ' '));
    assert(user_keys()[35] == "profileUI"@ && marks("profileUI"@) == (9nat, 'p', 'e', ' '));
    assert(user_keys()[36] == "progressTimestamps"@ && marks("progressTimestamps"@) == (18nat, 'p', 's', 'i'));
    assert(user_keys()[37] == "rand"@ && marks("rand"@) == (4nat, 'r', ' ', ' '));
    assert(user_keys()[38] == "savedChallenges"@ && marks("savedChallenges"@) == (15nat, 's', 'h', 'l'));
    assert(user_keys()[39] == "sendQuincyEmail"@ && marks("sendQuincyEmail"@) == (15nat, 's', 'i', 'y'));
    assert(user_keys()[40] == "sound"@ && marks("sound"@) == (5nat, 's', ' ', ' '));
    assert(user_keys()[41] == "twitter"@ && marks("twitter"@) == (7nat, 't', 'r', ' '));
    assert(user_keys()[42] == "username"@ && marks("username"@) == (8nat, 'u', 'm', ' '));
    assert(user_keys()[43] == "usernameDisplay"@ && marks("usernameDisplay"@) == (15nat, 'u', 'm', 'i'));
    assert(user_keys()[44] == "website"@ && marks("website"@) == (7nat, 'w', 'e', ' '));
    assert(user_keys()[45] == "yearsTopContributor"@ && marks("yearsTopContributor"@) == (19nat, 'y', 'o', 'o'));
}

/// The fields of the entity have distinct keys.
pub proof fn lemma_user_fields_have_distinct_keys(descriptor: Descriptor)
    requires
        is_user(descriptor),
    ensures
        distinct_keys(descriptor->Record_0@),
{
    let fields = descriptor->Record_0@;
    lemma_user_keys_differ();
    assert forall|a: int, b: int| 0 <= a < b < fields.len() implies (#[trigger] fields[a]).key@ != (
    #[trigger] fields[b]).key@ by {
        assert(fields[a].key@ == user_keys()[a]);
        assert(fields[b].key@ == user_keys()[b]);
    }
}

/// Any two descriptors of the entity lay down the same.
pub proof fn lemma_file_schemas_are_same(first: Descriptor, second: Descriptor)
    requires
        is_file(first),
        is_file(second),
    ensures
        same_descriptor(first, second),
{
    let a = first->Record_0@;
    let b = second->Record_0@;
    reveal_with_fuel(same_descriptor, 3);
    assert(same_descriptor(a[0].descriptor, b[0].descriptor));
    assert(same_descriptor(a[1].descriptor, b[1].descriptor));
    assert(same_descriptor(a[2].descriptor, b[2].descriptor));
    assert(same_descriptor(a[3].descriptor, b[3].descriptor));
    assert(same_descriptor(a[4].descriptor, b[4].descriptor));
    assert forall|i: int| 0 <= i < a.len() implies (#[trigger] a[i]).key@ == b[i].key@
        && same_descriptor(a[i].descriptor, b[i].descriptor) by {
        assert(a[i].key@ == file_keys()[i]);
        assert(b[i].key@ == file_keys()[i]);
    }
}

/// Any two descriptors of the entity lay down the same.
pub proof fn lemma_timestamp_schemas_are_same(first: Descriptor, second: Descriptor)
    requires
        is_timestamp(first),
        is_timestamp(second),
    ensures
        same_descriptor(first, second),
{
    let a = first->Record_0@;
    let b = second->Record_0@;
    reveal_with_fuel(same_descriptor, 3);
    assert(same_descriptor(a[0].descriptor, b[0].descriptor));
    assert(same_descriptor(a[1].descriptor, b[1].descriptor));
    assert forall|i: int| 0 <= i < a.len() implies (#[trigger] a[i]).key@ == b[i].key@
        && same_descriptor(a[i].descriptor, b[i].descriptor) by {
        assert(a[i].key@ == timestamp_keys()[i]);
        assert(b[i].key@ == timestamp_keys()[i]);
    }
}

/// Any two descriptors of the entity lay down the same.
pub proof fn lemma_profile_settings_schemas_are_same(first: Descriptor, second: Descriptor)
    requires
        is_profile_settings(first),
        is_profile_settings(second),
    ensures
        same_descriptor(first, second),
{
    let a = first->Record_0@;
    let b = second->Record_0@;
    reveal_with_fuel(same_descriptor, 3);
    assert(same_descriptor(a[0].descriptor, b[0].descriptor));
    assert(same_descriptor(a[1].descriptor, b[1].descriptor));
    assert(same_descriptor(a[2].descriptor, b[2].descriptor));
    assert(same_descriptor(a[3].descriptor, b[3].descriptor));
    assert(same_descriptor(a[4].descriptor, b[4].descriptor));
    assert(same_descriptor(a[5].descriptor, b[5].descriptor));
    assert(same_descriptor(a[6].descriptor, b[6].descriptor));
    assert(same_descriptor(a[7].descriptor, b[7].descriptor));
    assert(same_descriptor(a[8].descriptor, b[8].descriptor));
    assert(same_descriptor(a[9].descriptor, b[9].descriptor));
    assert forall|i: int| 0 <= i < a.len() implies (#[trigger] a[i]).key@ == b[i].key@
        && same_descriptor(a[i].descriptor, b[i].descriptor) by {
        assert(a[i].key@ == profile_settings_keys()[i]);
        assert(b[i].key@ == profile_settings_keys()[i]);
    }
}

/// Any two descriptors of the entity lay down the same.
pub proof fn lemma_completed_challenge_schemas_are_same(first: Descriptor, second: Descriptor)
    requires
        is_completed_challenge(first),
        is_completed_challenge(second),
    ensures
        same_descriptor(first, second),
{
    let a = first->Record_0@;
    let b = second->Record_0@;
    reveal_with_fuel(same_descriptor, 3);
    lemma_file_schemas_are_same(item(a[2].descriptor), item(b[2].descriptor));
    assert(same_descriptor(a[0].descriptor, b[0].descriptor));
    assert(same_descriptor(a[1].descriptor, b[1].descriptor));
    assert(same_descriptor(a[2].descriptor, b[2].descriptor));
    assert(same_descriptor(a[3].descriptor, b[3].descriptor));
    assert(same_descriptor(a[4].descriptor, b[4].descriptor));
    assert(same_descriptor(a[5].descriptor, b[5].descriptor));
    assert(same_descriptor(a[6].descriptor, b[6].descriptor));
    assert forall|i: int| 0 <= i < a.len() implies (#[trigger] a[i]).key@ == b[i].key@
        && same_descriptor(a[i].descriptor, b[i].descriptor) by {
        assert(a[i].key@ == completed_challenge_keys()[i]);
        assert(b[i].key@ == completed_challenge_keys()[i]);
    }
}

/// Any two descriptors of the entity lay down the same.
pub proof fn lemma_saved_challenge_schemas_are_same(first: Descriptor, second: Descriptor)
    requires
        is_saved_challenge(first),
        is_saved_challenge(second),
    ensures
        same_descriptor(first, second),
{
    let a = first->Record_0@;
    let b = second->Record_0@;
    reveal_with_fuel(same_descriptor, 3);
    lemma_file_schemas_are_same(item(a[1].descriptor), item(b[1].descriptor));
    assert(same_descriptor(a[0].descriptor, b[0].descriptor));
    assert(same_descriptor(a[1].descriptor, b[1].descriptor));
    assert(same_descriptor(a[2].descriptor, b[2].descriptor));
    assert(same_descriptor(a[3].descriptor, b[3].descriptor));
    assert forall|i: int| 0 <= i < a.len() implies (#[trigger] a[i]).key@ == b[i].key@
        && same_descriptor(a[i].descriptor, b[i].descriptor) by {
        assert(a[i].key@ == saved_challenge_keys()[i]);
        assert(b[i].key@ == saved_challenge_keys()[i]);
    }
}

/// Any two descriptors of the entity lay down the same.
pub proof fn lemma_user_schemas_are_same(first: Descriptor, second: Descriptor)
    requires
        is_user(first),
        is_user(second),
    ensures
        same_descriptor(first, second),
{
    let a = first->Record_0@;
    let b = second->Record_0@;
    reveal_with_fuel(same_descriptor, 3);
    lemma_completed_challenge_schemas_are_same(item(a[2].descriptor), item(b[2].descriptor));
    lemma_timestamp_schemas_are_same(
        item(wrapped(a[33].descriptor)),
        item(wrapped(b[33].descriptor)),
    );
    lemma_profile_settings_schemas_are_same(a[35].descriptor, b[35].descriptor);
    lemma_timestamp_schemas_are_same(item(a[36].descriptor), item(b[36].descriptor));
    lemma_saved_challenge_schemas_are_same(
        item(wrapped(a[38].descriptor)),
        item(wrapped(b[38].descriptor)),
    );
    assert(same_descriptor(a[0].descriptor, b[0].descriptor));
    assert(same_descriptor(a[1].descriptor, b[1].descriptor));
    assert(same_descriptor(a[2].descriptor, b[2].descriptor));
    assert(same_descriptor(a[3].descriptor, b[3].descriptor));
    assert(same_descriptor(a[4].descriptor, b[4].descriptor));
    assert(same_descriptor(a[5].descriptor, b[5].descriptor));
    assert(same_descriptor(a[6].descriptor, b[6].descriptor));
    assert(same_descriptor(a[7].descriptor, b[7].descriptor));
    assert(same_descriptor(a[8].descriptor, b[8].descriptor));
    assert(same_descriptor(a[9].descriptor, b[9].descriptor));
    assert(same_descriptor(a[10].descriptor, b[10].descriptor));
    assert(same_descriptor(a[11].descriptor, b[11].descriptor));
    assert(same_descriptor(a[12].descriptor, b[12].descriptor));
    assert(same_descriptor(a[13].descriptor, b[13].descriptor));
    assert(same_descriptor(a[14].descriptor, b[14].descriptor));
    assert(same_descriptor(a[15].descriptor, b[15].descriptor));
    assert(same_descriptor(a[16].descriptor, b[16].descriptor));
    assert(same_descriptor(a[17].descriptor, b[17].descriptor));
    assert(same_descriptor(a[18].descriptor, b[18].descriptor));
    assert(same_descriptor(a[19].descriptor, b[19].descriptor));
    assert(same_descriptor(a[20].descriptor, b[20].descriptor));
    assert(same_descriptor(a[21].descriptor, b[21].descriptor));
    assert(same_descriptor(a[22].descriptor, b[22].descriptor));
    assert(same_descriptor(a[23].descriptor, b[23].descriptor));
    assert(same_descriptor(a[24].descriptor, b[24].descriptor));
    assert(same_descriptor(a[25].descriptor, b[25].descriptor));
    assert(same_descriptor(a[26].descriptor, b[26].descriptor));
    assert(same_descriptor(a[27].descriptor, b[27].descriptor));
    assert(same_descriptor(a[28].descriptor, b[28].descriptor));
    assert(same_descriptor(a[29].descriptor, b[29].descriptor));
    assert(same_descriptor(a[30].descriptor, b[30].descriptor));
    assert(same_descriptor(a[31].descriptor, b[31].descriptor));
    assert(same_descriptor(a[32].descriptor, b[32].descriptor));
    assert(same_descriptor(a[33].descriptor, b[33].descriptor));
    assert(same_descriptor(a[34].descriptor, b[34].descriptor));
    assert(same_descriptor(a[35].descriptor, b[35].descriptor));
    assert(same_descriptor(a[36].descriptor, b[36].descriptor));
    assert(same_descriptor(a[37].descriptor, b[37].descriptor));
    assert(same_descriptor(a[38].descriptor, b[38].descriptor));
    assert(same_descriptor(a[39].descriptor, b[39].descriptor));
    assert(same_descriptor(a[40].descriptor, b[40].descriptor));
    assert(same_descriptor(a[41].descriptor, b[41].descriptor));
    assert(same_descriptor(a[42].descriptor, b[42].descriptor));
    assert(same_descriptor(a[43].descriptor, b[43].descriptor));
    assert(same_descriptor(a[44].descriptor, b[44].descriptor));
    assert(same_descriptor(a[45].descriptor, b[45].descriptor));
    assert forall|i: int| 0 <= i < a.len() implies (#[trigger] a[i]).key@ == b[i].key@
        && same_descriptor(a[i].descriptor, b[i].descriptor) by {
        assert(a[i].key@ == user_keys()[i]);
        assert(b[i].key@ == user_keys()[i]);
    }
}

/// The descriptor of the entity.
pub fn file_schema() -> (descriptor: Descriptor)
    ensures
        is_file(descriptor),
        descriptor.wf(),
        descriptor.sparse(),
        distinct_keys(descriptor->Record_0@),
{
    let mut fields: Vec<Field> = Vec::new();
    attach(&mut fields, field("contents", "contents", text(contents_grammar())));
    attach(&mut fields, field("ext", "ext", text(extension_grammar())));
    attach(&mut fields, field("key", "key", text(short_word_grammar())));
    attach(&mut fields, field("name", "name", text(short_word_grammar())));
    attach(&mut fields, field("path", "path", text(short_word_grammar())));
    let descriptor = record(fields);
    proof {
        lemma_file_fields_have_distinct_keys(descriptor);
    }
    descriptor
}

/// The descriptor of the entity.
pub fn timestamp_schema() -> (descriptor: Descriptor)
    ensures
        is_timestamp(descriptor),
        descriptor.wf(),
        descriptor.sparse(),
        distinct_keys(descriptor->Record_0@),
{
    let mut fields: Vec<Field> = Vec::new();
    attach(&mut fields, field("completed_date", "completedDate", number(NumericKind::Integer, Predicate::Above(0))));
    attach(&mut fields, field("id", "id", text(id_grammar())));
    let descriptor = record(fields);
    proof {
        lemma_timestamp_fields_have_distinct_keys(descriptor);
    }
    descriptor
}

/// The descriptor of the entity.
pub fn profile_settings_schema() -> (descriptor: Descriptor)
    ensures
        is_profile_settings(descriptor),
        descriptor.wf(),
        descriptor.sparse(),
        distinct_keys(descriptor->Record_0@),
{
    let mut fields: Vec<Field> = Vec::new();
    attach(&mut fields, field("is_locked", "isLocked", flag()));
    attach(&mut fields, field("show_about", "showAbout", flag()));
    attach(&mut fields, field("show_certs", "showCerts", flag()));
    attach(&mut fields, field("show_donation", "showDonation", flag()));
    attach(&mut fields, field("show_heat_map", "showHeatMap", flag()));
    attach(&mut fields, field("show_location", "showLocation", flag()));
    attach(&mut fields, field("show_name", "showName", flag()));
    attach(&mut fields, field("show_points", "showPoints", flag()));
    attach(&mut fields, field("show_portfolio", "showPortfolio", flag()));
    attach(&mut fields, field("show_time_line", "showTimeLine", flag()));
    let descriptor = record(fields);
    proof {
        lemma_profile_settings_fields_have_distinct_keys(descriptor);
    }
    descriptor
}

/// The descriptor of the entity.
pub fn completed_challenge_schema() -> (descriptor: Descriptor)
    ensures
        is_completed_challenge(descriptor),
        descriptor.wf(),
        descriptor.sparse(),
        distinct_keys(descriptor->Record_0@),
{
    let mut fields: Vec<Field> = Vec::new();
    attach(&mut fields, field("challenge_type", "challengeType", number(NumericKind::Byte, Predicate::Any)));
    attach(&mut fields, field("completed_date", "completedDate", number(NumericKind::Integer, Predicate::Above(0))));
    attach(&mut fields, field("files", "files", list(file_schema(), 0, 9)));
    attach(&mut fields, field("github_link", "githubLink", optional(text(github_grammar()))));
    attach(&mut fields, field("id", "id", text(id_grammar())));
    attach(&mut fields, field("is_manually_approved", "isManuallyApproved", flag()));
    attach(&mut fields, field("solution", "solution", text(solution_grammar())));
    let descriptor = record(fields);
    proof {
        lemma_completed_challenge_fields_have_distinct_keys(descriptor);
    }
    descriptor
}

/// The descriptor of the entity.
pub fn saved_challenge_schema() -> (descriptor: Descriptor)
    ensures
        is_saved_challenge(descriptor),
        descriptor.wf(),
        descriptor.sparse(),
        distinct_keys(descriptor->Record_0@),
{
    let mut fields: Vec<Field> = Vec::new();
    attach(&mut fields, field("challenge_type", "challengeType", number(NumericKind::Byte, Predicate::Any)));
    attach(&mut fields, field("files", "files", list(file_schema(), 0, 9)));
    attach(&mut fields, field("id", "id", text(id_grammar())));
    attach(&mut fields, field("last_saved_date", "lastSavedDate", number(NumericKind::Integer, Predicate::Above(0))));
    let descriptor = record(fields);
    proof {
        lemma_saved_challenge_fields_have_distinct_keys(descriptor);
    }
    descriptor
}

fn attach_user_fields_first(fields: &mut Vec<Field>)
    requires
        old(fields)@.len() == 0,
        fields_sound(old(fields)@),
    ensures
        final(fields)@.len() == 8,
        final(fields)@.subrange(0, 0) == old(fields)@,
        fields_sound(final(fields)@),
        user_fields_first(final(fields)@),
{
    attach(fields, field("about", "about", optional(text(about_grammar()))));
    attach(fields, field("accepted_privacy_terms", "acceptedPrivacyTerms", flag()));
    attach(fields, field("completed_challenges", "completedChallenges", list(completed_challenge_schema(), 0, 999)));
    attach(fields, field("email", "email", text(email_grammar())));
    attach(fields, field("github_profile", "githubProfile", optional(text(github_grammar()))));
    attach(fields, field("is_apis_microservices_cert", "isApisMicroservicesCert", flag()));
    attach(fields, field("is_back_end_cert", "isBackEndCert", flag()));
    attach(fields, field("is_banned", "isBanned", flag()));
    assert(fields@.subrange(0, 0) =~= old(fields)@);
}

fn attach_user_fields_second(fields: &mut Vec<Field>)
    requires
        old(fields)@.len() == 8,
        fields_sound(old(fields)@),
    ensures
        final(fields)@.len() == 16,
        final(fields)@.subrange(0, 8) == old(fields)@,
        fields_sound(final(fields)@),
        user_fields_second(final(fields)@),
{
    attach(fields, field("is_cheater", "isCheater", flag()));
    attach(fields, field("is_college_algebra_py_cert_v8", "isCollegeAlgebraPyCertV8", flag()));
    attach(fields, field("is_data_analysis_py_cert_v7", "isDataAnalysisPyCertV7", flag()));
    attach(fields, field("is_data_vis_cert", "isDataVisCert", flag()));
    attach(fields, field("is_donating", "isDonating", flag()));
    attach(fields, field("is_front_end_cert", "isFrontEndCert", flag()));
    attach(fields, field("is_front_end_libs_cert", "isFrontEndLibsCert", flag()));
    attach(fields, field("is_full_stack_cert", "isFullStackCert", flag()));
    assert(fields@.subrange(0, 8) =~= old(fields)@);
}

fn attach_user_fields_third(fields: &mut Vec<Field>)
    requires
        old(fields)@.len() == 16,
        fields_sound(old(fields)@),
    ensures
        final(fields)@.len() == 24,
        final(fields)@.subrange(0, 16) == old(fields)@,
        fields_sound(final(fields)@),
        user_fields_third(final(fields)@),
{
    attach(fields, field("is_foundational_c_sharp_cert_v8", "isFoundationalCSharpCertV8", flag()));
    attach(fields, field("is_honest", "isHonest", flag()));
    attach(fields, field("is_infosec_cert_v7", "isInfosecCertV7", flag()));
    attach(fields, field("is_infosec_qa_cert", "isInfosecQaCert", flag()));
    attach(fields, field("is_js_algo_data_struct_cert", "isJsAlgoDataStructCert", flag()));
    attach(fields, field("is_js_algo_data_struct_cert_v8", "isJsAlgoDataStructCertV8", flag()));
    attach(fields, field("is_machine_learning_py_cert_v7", "isMachineLearningPyCertV7", flag()));
    attach(fields, field("is_qa_cert_v7", "isQaCertV7", flag()));
    assert(fields@.subrange(0, 16) =~= old(fields)@);
}

fn attach_user_fields_fourth(fields: &mut Vec<Field>)
    requires
        old(fields)@.len() == 24,
        fields_sound(old(fields)@),
    ensures
        final(fields)@.len() == 32,
        final(fields)@.subrange(0, 24) == old(fields)@,
        fields_sound(final(fields)@),
        user_fields_fourth(final(fields)@),
{
    attach(fields, field("is_relational_database_cert_v8", "isRelationalDatabaseCertV8", flag()));
    attach(fields, field("is_resp_web_design_cert", "isRespWebDesignCert", flag()));
    attach(fields, field("is_sci_comp_py_cert_v7", "isSciCompPyCertV7", flag()));
    attach(fields, field("is_2018_data_vis_cert", "is2018DataVisCert", flag()));
    attach(fields, field("is_2018_full_stack_cert", "is2018FullStackCert", flag()));
    attach(fields, field("keyboard_shortcuts", "keyboardShortcuts", optional(flag())));
    attach(fields, field("linkedin", "linkedin", optional(text(linkedin_grammar()))));
    attach(fields, field("name", "name", optional(text(name_grammar()))));
    assert(fields@.subrange(0, 24) =~= old(fields)@);
}

fn attach_user_fields_fifth(fields: &mut Vec<Field>)
    requires
        old(fields)@.len() == 32,
        fields_sound(old(fields)@),
    ensures
        final(fields)@.len() == 40,
        final(fields)@.subrange(0, 32) == old(fields)@,
        fields_sound(final(fields)@),
        user_fields_fifth(final(fields)@),
{
    attach(fields, field("needs_moderation", "needsModeration", optional(flag())));
    attach(fields, field("partially_completed_challenges", "partiallyCompletedChallenges", optional(list(timestamp_schema(), 0, 9))));
    attach(fields, field("picture", "picture", optional(text(picture_grammar()))));
    attach(fields, field("profile_ui", "profileUI", profile_settings_schema()));
    attach(fields, field("progress_timestamps", "progressTimestamps", list(timestamp_schema(), 0, 999)));
    attach(fields, field("rand", "rand", number(NumericKind::Float, Predicate::Finite)));
    attach(fields, field("saved_challenges", "savedChallenges", optional(list(saved_challenge_schema(), 0, 9))));
    attach(fields, field("send_quincy_email", "sendQuincyEmail", flag()));
    assert(fields@.subrange(0, 32) =~= old(fields)@);
}

fn attach_user_fields_sixth(fields: &mut Vec<Field>)
    requires
        old(fields)@.len() == 40,
        fields_sound(old(fields)@),
    ensures
        final(fields)@.len() == 46,
        final(fields)@.subrange(0, 40) == old(fields)@,
        fields_sound(final(fields)@),
        user_fields_sixth(final(fields)@),
{
    attach(fields, field("sound", "sound", optional(flag())));
    attach(fields, field("twitter", "twitter", optional(text(twitter_grammar()))));
    attach(fields, field("username", "username", text(username_grammar())));
    attach(fields, field("username_display", "usernameDisplay", optional(text(display_name_grammar()))));
    attach(fields, field("website", "website", optional(text(website_grammar()))));
    attach(fields, field("years_top_contributor", "yearsTopContributor", optional(list(text(year_grammar()), 8, 8))));
    assert(fields@.subrange(0, 40) =~= old(fields)@);
}

/// Fields that stand in a list stand in every list that begins with it.
proof fn lemma_user_fields_carry(before: Seq<Field>, after: Seq<Field>)
    requires
        before.len() <= after.len(),
        after.subrange(0, before.len() as int) == before,
    ensures
        user_fields_first(before) && before.len() >= 8 ==> user_fields_first(after),
        user_fields_second(before) && before.len() >= 16 ==> user_fields_second(after),
        user_fields_third(before) && before.len() >= 24 ==> user_fields_third(after),
        user_fields_fourth(before) && before.len() >= 32 ==> user_fields_fourth(after),
        user_fields_fifth(before) && before.len() >= 40 ==> user_fields_fifth(after),
        user_fields_sixth(before) && before.len() >= 46 ==> user_fields_sixth(after),
{
    assert forall|i: int| 0 <= i < before.len() implies before[i] == after[i] by {
        assert(after.subrange(0, before.len() as int)[i] == after[i]);
    }
}

/// The descriptor of the entity.
pub fn user_schema() -> (descriptor: Descriptor)
    ensures
        is_user(descriptor),
        descriptor.wf(),
        descriptor.sparse(),
        distinct_keys(descriptor->Record_0@),
{
    let mut fields: Vec<Field> = Vec::new();
    attach_user_fields_first(&mut fields);
    let ghost before = fields@;
    attach_user_fields_second(&mut fields);
    proof {
        lemma_user_fields_carry(before, fields@);
    }
    let ghost before = fields@;
    attach_user_fields_third(&mut fields);
    proof {
        lemma_user_fields_carry(before, fields@);
    }
    let ghost before = fields@;
    attach_user_fields_fourth(&mut fields);
    proof {
        lemma_user_fields_carry(before, fields@);
    }
    let ghost before = fields@;
    attach_user_fields_fifth(&mut fields);
    proof {
        lemma_user_fields_carry(before, fields@);
    }
    let ghost before = fields@;
    attach_user_fields_sixth(&mut fields);
    proof {
        lemma_user_fields_carry(before, fields@);
    }
    let descriptor = record(fields);
    proof {
        lemma_user_fields_have_distinct_keys(descriptor);
    }
    descriptor
}

/// The entities of the registry.
#[derive(Clone, Copy, Debug, PartialEq, Eq, Structural)]
pub enum Entity {
    User,
    Timestamp,
    ProfileSettings,
    CompletedChallenge,
    SavedChallenge,
    File,
}

/// The descriptor that the registry holds for the entity.
pub fn schema_of(entity: Entity) -> (descriptor: Descriptor)
    ensures
        descriptor.wf(),
        descriptor.sparse(),
        distinct_keys(descriptor->Record_0@),
        match entity {
            Entity::User => is_user(descriptor),
            Entity::Timestamp => is_timestamp(descriptor),
            Entity::ProfileSettings => is_profile_settings(descriptor),
            Entity::CompletedChallenge => is_completed_challenge(descriptor),
            Entity::SavedChallenge => is_saved_challenge(descriptor),
            Entity::File => is_file(descriptor),
        },
{
    match entity {
        Entity::User => user_schema(),
        Entity::Timestamp => timestamp_schema(),
        Entity::ProfileSettings => profile_settings_schema(),
        Entity::CompletedChallenge => completed_challenge_schema(),
        Entity::SavedChallenge => saved_challenge_schema(),
        Entity::File => file_schema(),
    }
}

/// The byte is a letter or a digit.
pub open spec fn is_alphanumeric(b: u8) -> bool {
    (0x30 <= b && b <= 0x39) || (0x41 <= b && b <= 0x5a) || (0x61 <= b && b <= 0x7a)
}

/// Every text that the identifier pattern accepts is exactly 24 bytes long,
/// each of them a letter or a digit.
pub proof fn lemma_id_is_24_alphanumeric(text: Seq<u8>)
    requires
        pieces_accept(id_pattern(), text),
    ensures
        text.len() == 24,
        forall|i: int| 0 <= i < text.len() ==> is_alphanumeric(#[trigger] text[i]),
{
    let cuts = choose|cuts: Seq<int>| splits_at(id_pattern(), text, cuts);
    assert(part_ok(id_pattern(), text, cuts, 0));
    assert(text.subrange(0, text.len() as int) =~= text);
    assert forall|i: int| 0 <= i < text.len() implies is_alphanumeric(#[trigger] text[i]) by {
        let class = alnum_class();
        assert(class.contains(text[i]));
        let j = choose|j: int| 0 <= j < class.len() && class[j] == text[i];
        assert(class[j] == text[i]);
    }
}

/// The document is the assembled form of a value tree that conforms to the
/// user schema.
pub open spec fn is_user_document(document: Document) -> bool {
    exists|schema: Descriptor, value: Value|
        is_user(schema) && schema.conforms(value) && #[trigger] schema.renders(value, document)
}

/// What the generation of one user under `schema` from `source` comes to. It
/// succeeds exactly where generation runs to its end, which it does unless a
/// date or the random number finds no accepted candidate within the retry
/// bound. The document is then the assembled form of a value tree that
/// conforms to the schema and has the content that the source yields.
pub open spec fn user_production(
    schema: Descriptor,
    source: RandomSource,
    outcome: Result<Document, Failure>,
) -> bool {
    &&& is_user(schema)
    &&& outcome is Ok <==> generated(schema, None, source).done
    &&& outcome matches Ok(document) ==> exists|value: Value|
        {
            &&& schema.conforms(value)
            &&& schema.shapes(value)
            &&& generated(schema, None, source).trees == seq![value@]
            &&& #[trigger] schema.renders(value, document)
        }
    &&& outcome matches Err(failure) ==> failure == Failure::GenerationExhausted
}

/// In the document of a user no key belongs to a field whose value is
/// absent.
pub proof fn lemma_user_document_omits_absent_fields(
    schema: Descriptor,
    value: Value,
    document: Document,
    i: int,
    slot: int,
)
    requires
        is_user(schema),
        schema.shapes(value),
        schema.renders(value, document),
        0 <= i < schema->Record_0@.len(),
        value->Record_0@[i] is Absent,
        0 <= slot < document->Object_0@.len(),
    ensures
        document->Object_0@[slot].key@ != schema->Record_0@[i].key@,
{
    lemma_user_fields_have_distinct_keys(schema);
    lemma_absent_field_omitted(schema, value, document, i, slot);
}

/// Generation of a user is a function of the source: under any two user
/// schemas the same source yields the same contents, fails alike and takes
/// equally many draws.
pub proof fn lemma_user_generation_is_deterministic(
    first: Descriptor,
    second: Descriptor,
    source: RandomSource,
)
    requires
        is_user(first),
        is_user(second),
    ensures
        generated(first, None, source) == generated(second, None, source),
{
    lemma_user_schemas_are_same(first, second);
    lemma_same_descriptor_generates_alike(first, second, None, source);
}

/// Two generations of a user from equal sources come to the same: both
/// succeed or both fail, they leave the source at the same place, and where
/// they succeed their documents hold the same, key by key and value by value.
pub proof fn lemma_equal_sources_give_equal_users(
    first: Descriptor,
    second: Descriptor,
    source: RandomSource,
    one: Result<Document, Failure>,
    other: Result<Document, Failure>,
)
    requires
        user_production(first, source, one),
        user_production(second, source, other),
    ensures
        one is Ok <==> other is Ok,
        source.advanced(generated(first, None, source).draws) == source.advanced(
            generated(second, None, source).draws,
        ),
        one is Ok ==> same_document(one->Ok_0, other->Ok_0),
        one is Err ==> one == other,
{
    lemma_user_generation_is_deterministic(first, second, source);
    lemma_user_schemas_are_same(first, second);
    if one is Ok {
        let a = one->Ok_0;
        let b = other->Ok_0;
        let v = choose|value: Value|
            first.conforms(value) && first.shapes(value) && generated(first, None, source).trees
                == seq![value@] && #[trigger] first.renders(value, a);
        let w = choose|value: Value|
            second.conforms(value) && second.shapes(value) && generated(
                second,
                None,
                source,
            ).trees == seq![value@] && #[trigger] second.renders(value, b);
        lemma_same_descriptor_assembles_alike(first, second, v, a);
        assert(seq![v@][0] == seq![w@][0]);
        lemma_equal_content_assembles_alike(second, v, w, a, b);
    }
}

/// Generates the document of one user from the source, under the user
/// schema. The source moves on by the draws that generation takes, whether
/// it succeeds or not.
pub fn generate_user_from(source: &mut RandomSource) -> (outcome: Result<Document, Failure>)
    ensures
        final(source).seed == old(source).seed,
        exists|schema: Descriptor|
            {
                &&& #[trigger] user_production(schema, *old(source), outcome)
                &&& *final(source) == old(source).advanced(
                    generated(schema, None, *old(source)).draws,
                )
            },
        outcome matches Ok(document) ==> is_user_document(document),
        outcome matches Err(failure) ==> failure == Failure::GenerationExhausted,
{
    let schema = user_schema();
    let outcome = produce(&schema, source);
    assert(user_production(schema, *old(source), outcome));
    outcome
}

/// Generates `count` users from the source under the user schema, one after
/// another and each on its own: each starts where the one before it stopped,
/// and a user whose generation is exhausted leaves its failure in its place
/// and does not touch the others.
pub fn generate_users(source: &mut RandomSource, count: u32) -> (outcomes: Vec<
    Result<Document, Failure>,
>)
    ensures
        final(source).seed == old(source).seed,
        outcomes@.len() == count,
        exists|schema: Descriptor|
            {
                &&& is_user(schema)
                &&& *final(source) == #[trigger] after_runs(schema, *old(source), count as nat)
                &&& forall|i: int|
                    0 <= i < count ==> user_production(
                        schema,
                        after_runs(schema, *old(source), i as nat),
                        #[trigger] outcomes@[i],
                    )
            },
        forall|i: int|
            0 <= i < outcomes@.len() ==> match #[trigger] outcomes@[i] {
                Ok(document) => is_user_document(document),
                Err(failure) => failure == Failure::GenerationExhausted,
            },
{
    let schema = user_schema();
    let outcomes = produce_many(&schema, source, count);
    assert forall|i: int| 0 <= i < count implies user_production(
        schema,
        after_runs(schema, *old(source), i as nat),
        #[trigger] outcomes@[i],
    ) by {
        assert(produced(schema, after_runs(schema, *old(source), i as nat), outcomes@[i]));
    }
    outcomes
}

/// Generates the document of one user from a source that the system's
/// entropy seeds: whatever the seed, the outcome is that of the generation of
/// one user from the start of the seed's stream.
pub fn generate_user() -> (outcome: Result<Document, Failure>)
    ensures
        exists|schema: Descriptor, seed: u64| #[trigger]
            user_production(schema, RandomSource { seed, position: 0 }, outcome),
        outcome matches Ok(document) ==> is_user_document(document),
        outcome matches Err(failure) ==> failure == Failure::GenerationExhausted,
{
    let mut source = RandomSource::from_entropy();
    let ghost start = source;
    let outcome = generate_user_from(&mut source);
    assert(start == (RandomSource { seed: start.seed, position: 0 }));
    outcome
}

} // verus!
