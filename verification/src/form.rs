//! The administration forms: a submitted form is held against a schema of
//! field rules, part by part, and ends in a response and in commands for the
//! storage behind it.
//!
//! A driver reads the parts of a multipart body and hands their names and
//! texts over. It performs the storage commands that come back.

use crate::response::{
    form_accepted_model, form_accepted_response, hash_fault_model, hash_fault_response,
    invalid_boundary_model, invalid_boundary_response, schema_fault_model, schema_fault_response,
    FixedResponse, ResponseModel,
};
use vstd::prelude::*;
use vstd::string::StringExecFns;

verus! {

/// The error of `multer`, carried through as it is.
#[verifier::external_type_specification]
#[verifier::external_body]
pub struct ExBoundaryError(multer::Error);

/// The error of `regex`, carried through as it is.
#[verifier::external_type_specification]
#[verifier::external_body]
pub struct ExPatternError(regex::Error);

/// The error of `argon2`'s password hashing, carried through as it is.
#[verifier::external_type_specification]
#[verifier::external_body]
pub struct ExHashError(argon2::password_hash::Error);

/// The multipart boundary that a content type names, if it is the content
/// type of a multipart form and names one.
pub uninterp spec fn boundary_of(content_type: Seq<char>) -> Option<Seq<char>>;

/// Whether a pattern, read as a regular expression, matches somewhere in a
/// text; nothing where the pattern is not one that can be compiled.
pub uninterp spec fn pattern_match(pattern: Seq<char>, text: Seq<char>) -> Option<bool>;

/// Calls `multer::parse_boundary` on a content type.
///
/// It returns the boundary parameter of a `multipart/form-data` content
/// type and an error for every other text. The result depends on the text
/// alone, and the contract gives it the name [`boundary_of`]. Nothing else
/// is claimed of it.
#[verifier::external_body]
pub(crate) fn parse_boundary(content_type: &str) -> (parsed: Result<String, multer::Error>)
    ensures
        match parsed {
            Ok(boundary) => boundary_of(content_type@) == Some(boundary@),
            Err(_) => boundary_of(content_type@) is None,
        },
{
    multer::parse_boundary(content_type)
}

/// Compiles a pattern with `regex::Regex::new` and asks `Regex::is_match`
/// whether it matches anywhere in a text.
///
/// The error is that of the compilation: the pattern is invalid or its
/// program would be larger than the default size limit. The result depends
/// on the pattern and the text alone, and the contract gives it the name
/// [`pattern_match`]. Nothing else is claimed of it.
#[verifier::external_body]
pub(crate) fn is_match(pattern: &str, text: &str) -> (found: Result<bool, regex::Error>)
    ensures
        match found {
            Ok(matched) => pattern_match(pattern@, text@) == Some(matched),
            Err(_) => pattern_match(pattern@, text@) is None,
        },
{
    match regex::Regex::new(pattern) {
        Ok(compiled) => Ok(compiled.is_match(text)),
        Err(error) => Err(error),
    }
}

/// The textual Argon2 hash of a password under a salt, with the default
/// parameters; nothing where the salt is not one or the hashing fails.
pub uninterp spec fn salted_hash(password: Seq<char>, salt: Seq<char>) -> Option<Seq<char>>;

/// Draws a salt of the recommended length from the operating system's
/// random source with `OsRng`'s `try_fill_bytes` and writes it with
/// `SaltString::encode_b64`.
///
/// Nothing comes back where the random source fails. The salt is new with
/// every call, so nothing is claimed of it.
#[verifier::external_body]
pub(crate) fn random_salt() -> (salt: Option<String>) {
    let mut bytes = [0u8; argon2::password_hash::Salt::RECOMMENDED_LENGTH];
    let mut source = argon2::password_hash::rand_core::OsRng;
    match argon2::password_hash::rand_core::RngCore::try_fill_bytes(&mut source, &mut bytes) {
        Ok(()) => match argon2::password_hash::SaltString::encode_b64(&bytes) {
            Ok(salt) => Some(salt.as_str().to_owned()),
            Err(_) => None,
        },
        Err(_) => None,
    }
}

/// Hashes a password with `Argon2::default().hash_password` under the salt
/// that `SaltString::from_b64` reads from the given text, and writes the
/// hash in its textual form.
///
/// The error is that of a text that is no salt, or of the hashing. The
/// result depends on the password and the salt alone, and the contract
/// gives it the name [`salted_hash`]. Nothing else is claimed of it.
#[verifier::external_body]
pub(crate) fn hash_with_salt(password: &str, salt: &str) -> (hashed: Result<
    String,
    argon2::password_hash::Error,
>)
    ensures
        match hashed {
            Ok(hash) => salted_hash(password@, salt@) == Some(hash@),
            Err(_) => salted_hash(password@, salt@) is None,
        },
{
    let salt = match argon2::password_hash::SaltString::from_b64(salt) {
        Ok(salt) => salt,
        Err(error) => return Err(error),
    };
    let hasher = argon2::Argon2::default();
    match argon2::PasswordHasher::hash_password(&hasher, password.as_bytes(), &salt) {
        Ok(hash) => Ok(hash.to_string()),
        Err(error) => Err(error),
    }
}

/// What a field of a form holds.
#[derive(Clone, Copy, Debug, PartialEq, Eq, Structural)]
pub enum FieldKind {
    Text,
    Email,
    Password,
}

/// The rule of one field of a schema.
#[derive(Clone, Debug, PartialEq, Eq)]
pub struct FieldRule {
    pub name: String,
    pub required: bool,
    pub pattern: String,
    pub kind: FieldKind,
}

/// The mathematical value of a [`FieldRule`].
pub struct RuleModel {
    pub name: Seq<char>,
    pub required: bool,
    pub pattern: Seq<char>,
    pub kind: FieldKind,
}

impl View for FieldRule {
    type V = RuleModel;

    open spec fn view(&self) -> RuleModel {
        RuleModel {
            name: self.name@,
            required: self.required,
            pattern: self.pattern@,
            kind: self.kind,
        }
    }
}

/// The rules of a schema, in order.
pub open spec fn rule_models(schema: Seq<FieldRule>) -> Seq<RuleModel> {
    Seq::new(schema.len(), |i: int| schema[i]@)
}

/// The first rule of a schema with the given name.
pub open spec fn find_rule(schema: Seq<RuleModel>, name: Seq<char>) -> Option<RuleModel>
    decreases schema.len(),
{
    if schema.len() == 0 {
        None
    } else if schema[0].name == name {
        Some(schema[0])
    } else {
        find_rule(schema.drop_first(), name)
    }
}

/// What one submitted part comes to.
#[derive(Clone, Copy, Debug, PartialEq, Eq, Structural)]
pub enum Verdict {
    /// The schema has no field of that name.
    Unknown,
    /// The field is not required: the part is passed over.
    Ignored,
    /// The field is required and the part is empty.
    Missing,
    /// The text does not match the pattern of the field.
    Mismatch,
    /// The pattern of the field cannot be compiled.
    BadPattern,
    /// The text is kept, as it is or, for a secret, hashed.
    Keep { secret: bool },
}

/// The verdict on a part, from the rule of its name, its text where it was
/// read, and whether the rule's pattern matches it.
pub open spec fn verdict_of(
    rule: Option<RuleModel>,
    value: Option<Seq<char>>,
    matched: Option<bool>,
) -> Verdict {
    match rule {
        None => Verdict::Unknown,
        Some(r) => if !r.required {
            Verdict::Ignored
        } else if value is None || value->0.len() == 0 {
            Verdict::Missing
        } else {
            match matched {
                None => Verdict::BadPattern,
                Some(false) => Verdict::Mismatch,
                Some(true) => Verdict::Keep { secret: r.kind is Password },
            }
        },
    }
}

/// The verdict on a part under a schema.
pub open spec fn judge_model(
    schema: Seq<RuleModel>,
    name: Seq<char>,
    value: Option<Seq<char>>,
) -> Verdict {
    let rule = find_rule(schema, name);
    let matched = if rule is Some && value is Some {
        pattern_match(rule->0.pattern, value->0)
    } else {
        None
    };
    verdict_of(rule, value, matched)
}

/// Whether the text of a part is looked at: only for a required field of
/// the schema.
pub open spec fn wants_value_model(schema: Seq<RuleModel>, name: Seq<char>) -> bool {
    find_rule(schema, name) is Some && find_rule(schema, name)->0.required
}

/// Finds the first rule of a schema with the given name.
pub fn lookup<'a>(schema: &'a Vec<FieldRule>, name: &str) -> (found: Option<&'a FieldRule>)
    ensures
        match found {
            Some(rule) => find_rule(rule_models(schema@), name@) == Some(rule@),
            None => find_rule(rule_models(schema@), name@) is None,
        },
{
    let wanted = String::from_str(name);
    let ghost rules = rule_models(schema@);
    let mut i: usize = 0;
    assert(rules.skip(0) =~= rules);
    while i < schema.len()
        invariant
            i <= schema.len(),
            wanted@ == name@,
            rules == rule_models(schema@),
            find_rule(rules, name@) == find_rule(rules.skip(i as int), name@),
        decreases schema.len() - i,
    {
        let ghost rest = rules.skip(i as int);
        assert(rest[0] == schema[i as int]@);
        assert(rest.drop_first() =~= rules.skip(i + 1));
        if schema[i].name == wanted {
            return Some(&schema[i]);
        }
        i += 1;
    }
    assert(rules.skip(i as int).len() == 0);
    None
}

/// Whether the driver has to read the text of a part of the given name.
pub fn wants_value(schema: &Vec<FieldRule>, name: &str) -> (wanted: bool)
    ensures
        wanted == wants_value_model(rule_models(schema@), name@),
{
    match lookup(schema, name) {
        Some(rule) => rule.required,
        None => false,
    }
}

/// The value of an optional text.
pub open spec fn text_model(text: Option<&str>) -> Option<Seq<char>> {
    match text {
        Some(t) => Some(t@),
        None => None,
    }
}

/// The verdict on a part whose rule and pattern match are already known.
pub fn verdict(rule: Option<&FieldRule>, value: Option<&str>, matched: Option<bool>) -> (v: Verdict)
    ensures
        v == verdict_of(
            match rule {
                Some(r) => Some(r@),
                None => None,
            },
            text_model(value),
            matched,
        ),
{
    match rule {
        None => Verdict::Unknown,
        Some(r) => {
            if !r.required {
                return Verdict::Ignored;
            }
            let empty = match value {
                None => true,
                Some(text) => text.is_empty(),
            };
            if empty {
                return Verdict::Missing;
            }
            match matched {
                None => Verdict::BadPattern,
                Some(false) => Verdict::Mismatch,
                Some(true) => {
                    let secret = match r.kind {
                        FieldKind::Password => true,
                        _ => false,
                    };
                    Verdict::Keep { secret }
                },
            }
        },
    }
}

/// The verdict on a part under a schema.
///
/// The pattern of a field is compiled and matched only for a required
/// field whose part holds a text.
pub fn judge(schema: &Vec<FieldRule>, name: &str, value: Option<&str>) -> (v: Verdict)
    ensures
        v == judge_model(rule_models(schema@), name@, text_model(value)),
{
    let rule = lookup(schema, name);
    let matched = match (rule, value) {
        (Some(r), Some(text)) => {
            if r.required && !text.is_empty() {
                match is_match(r.pattern.as_str(), text) {
                    Ok(found) => Some(found),
                    Err(_) => None,
                }
            } else {
                None
            }
        },
        _ => None,
    };
    verdict(rule, value, matched)
}

/// A text that a form keeps under the name of its field.
#[derive(Clone, Debug, PartialEq, Eq)]
pub struct Entry {
    pub name: String,
    pub value: String,
    /// Whether the text is a secret, which is stored only as a hash.
    pub secret: bool,
}

/// The mathematical value of an [`Entry`].
pub struct EntryModel {
    pub name: Seq<char>,
    pub value: Seq<char>,
    pub secret: bool,
}

impl View for Entry {
    type V = EntryModel;

    open spec fn view(&self) -> EntryModel {
        EntryModel { name: self.name@, value: self.value@, secret: self.secret }
    }
}

/// The entries of a list, in order.
pub open spec fn entry_models(entries: Seq<Entry>) -> Seq<EntryModel> {
    Seq::new(entries.len(), |i: int| entries[i]@)
}

/// The texts of a list of strings, in order.
pub open spec fn texts(lines: Seq<String>) -> Seq<Seq<char>> {
    Seq::new(lines.len(), |i: int| lines[i]@)
}

/// Whether an entry of the given name stands at an index and none stands
/// before it.
pub open spec fn is_first_at(entries: Seq<EntryModel>, name: Seq<char>, at: int) -> bool {
    &&& 0 <= at < entries.len()
    &&& entries[at].name == name
    &&& forall|k: int| 0 <= k < at ==> (#[trigger] entries[k]).name != name
}

/// The entries after one more is kept: it takes the place of the entry of
/// its name, or comes last where there is none.
pub open spec fn put(entries: Seq<EntryModel>, entry: EntryModel) -> Seq<EntryModel> {
    if exists|at: int| is_first_at(entries, entry.name, at) {
        entries.update(choose|at: int| is_first_at(entries, entry.name, at), entry)
    } else {
        entries.push(entry)
    }
}

/// Whether no two entries share a name.
pub open spec fn distinct_names(entries: Seq<EntryModel>) -> bool {
    forall|i: int, j: int|
        0 <= i < j < entries.len() ==> (#[trigger] entries[i]).name != (#[trigger] entries[j]).name
}

/// What a form has come to after some of its parts.
pub struct FormModel {
    /// The complaints so far, in the order of the parts.
    pub errors: Seq<Seq<char>>,
    /// The texts kept so far.
    pub entries: Seq<EntryModel>,
    /// Whether the schema itself was found faulty.
    pub fault: bool,
}

/// The form before any part.
pub open spec fn empty_form() -> FormModel {
    FormModel { errors: Seq::empty(), entries: Seq::empty(), fault: false }
}

/// The form after one part with the given verdict. A form that found its
/// schema faulty takes no further part.
pub open spec fn apply_model(
    form: FormModel,
    name: Seq<char>,
    value: Seq<char>,
    verdict: Verdict,
) -> FormModel {
    if form.fault {
        form
    } else {
        match verdict {
            Verdict::Unknown => FormModel {
                errors: form.errors.push(name + " is not a valid field"@),
                entries: form.entries,
                fault: false,
            },
            Verdict::Ignored => form,
            Verdict::Missing => FormModel {
                errors: form.errors.push(name + " is required"@),
                entries: form.entries,
                fault: false,
            },
            Verdict::Mismatch => FormModel {
                errors: form.errors.push(name + " is not valid"@),
                entries: form.entries,
                fault: false,
            },
            Verdict::BadPattern => FormModel {
                errors: form.errors,
                entries: form.entries,
                fault: true,
            },
            Verdict::Keep { secret } => FormModel {
                errors: form.errors,
                entries: put(form.entries, EntryModel { name, value, secret }),
                fault: false,
            },
        }
    }
}

/// The text of a part, empty where it was not read.
pub open spec fn text_or_empty(value: Option<Seq<char>>) -> Seq<char> {
    match value {
        Some(text) => text,
        None => Seq::empty(),
    }
}

/// The form after one part under a schema.
pub open spec fn record_model(
    form: FormModel,
    schema: Seq<RuleModel>,
    name: Seq<char>,
    value: Option<Seq<char>>,
) -> FormModel {
    if form.fault {
        form
    } else {
        apply_model(form, name, text_or_empty(value), judge_model(schema, name, value))
    }
}

/// Keeping an entry keeps the names distinct, and afterwards the entry
/// stands under its name.
pub proof fn lemma_put_keeps_names_distinct(entries: Seq<EntryModel>, entry: EntryModel)
    requires
        distinct_names(entries),
    ensures
        distinct_names(put(entries, entry)),
        exists|at: int| is_first_at(put(entries, entry), entry.name, at) && put(entries, entry)[at] == entry,
        forall|k: int|
            0 <= k < entries.len() && (#[trigger] entries[k]).name != entry.name ==> put(
                entries,
                entry,
            )[k] == entries[k],
{
    let after = put(entries, entry);
    if exists|at: int| is_first_at(entries, entry.name, at) {
        let at = choose|at: int| is_first_at(entries, entry.name, at);
        assert forall|i: int, j: int| 0 <= i < j < after.len() implies (#[trigger] after[i]).name
            != (#[trigger] after[j]).name by {
            assert(after[i].name == entries[i].name);
            assert(after[j].name == entries[j].name);
        }
        assert forall|k: int| 0 <= k < at implies (#[trigger] after[k]).name != entry.name by {
            assert(after[k] == entries[k]);
        }
        assert(is_first_at(after, entry.name, at));
    } else {
        assert forall|k: int| 0 <= k < entries.len() implies (#[trigger] entries[k]).name
            != entry.name by {
            if entries[k].name == entry.name {
                lemma_first_exists(entries, entry.name, k);
            }
        }
        assert forall|i: int, j: int| 0 <= i < j < after.len() implies (#[trigger] after[i]).name
            != (#[trigger] after[j]).name by {
            assert(after[i] == entries[i]);
            if j < entries.len() {
                assert(after[j] == entries[j]);
            }
        }
        let last = entries.len() as int;
        assert forall|k: int| 0 <= k < last implies (#[trigger] after[k]).name != entry.name by {
            assert(after[k] == entries[k]);
        }
        assert(is_first_at(after, entry.name, last));
    }
}

/// Where some entry has a name, a first one has it.
pub proof fn lemma_first_exists(entries: Seq<EntryModel>, name: Seq<char>, at: int)
    requires
        0 <= at < entries.len(),
        entries[at].name == name,
    ensures
        exists|first: int| is_first_at(entries, name, first),
    decreases at,
{
    if exists|k: int| 0 <= k < at && entries[k].name == name {
        let k = choose|k: int| 0 <= k < at && entries[k].name == name;
        lemma_first_exists(entries, name, k);
    } else {
        assert(is_first_at(entries, name, at));
    }
}

/// A form in the making: the complaints and the kept texts so far.
#[derive(Clone, Debug, PartialEq, Eq)]
pub struct FormState {
    errors: Vec<String>,
    entries: Vec<Entry>,
    fault: bool,
}

impl View for FormState {
    type V = FormModel;

    closed spec fn view(&self) -> FormModel {
        FormModel {
            errors: texts(self.errors@),
            entries: entry_models(self.entries@),
            fault: self.fault,
        }
    }
}

impl FormState {
    /// The form before any part.
    pub fn new() -> (form: FormState)
        ensures
            form@ == empty_form(),
    {
        let form = FormState { errors: Vec::new(), entries: Vec::new(), fault: false };
        assert(texts(form.errors@) =~= Seq::<Seq<char>>::empty());
        assert(entry_models(form.entries@) =~= Seq::<EntryModel>::empty());
        form
    }

    /// The complaints so far.
    pub fn errors(&self) -> (errors: &Vec<String>)
        ensures
            texts(errors@) == self@.errors,
    {
        &self.errors
    }

    /// The texts kept so far.
    pub fn entries(&self) -> (entries: &Vec<Entry>)
        ensures
            entry_models(entries@) == self@.entries,
    {
        &self.entries
    }

    /// Whether the schema was found faulty.
    pub fn is_faulty(&self) -> (fault: bool)
        ensures
            fault == self@.fault,
    {
        self.fault
    }

    /// Adds a complaint: the name of the field and what is wrong with it.
    fn complain(&mut self, name: &str, what: &str)
        ensures
            final(self)@ == (FormModel {
                errors: old(self)@.errors.push(name@ + what@),
                entries: old(self)@.entries,
                fault: old(self)@.fault,
            }),
    {
        let mut line = String::from_str(name);
        line.append(what);
        self.errors.push(line);
        assert(texts(self.errors@) =~= texts(old(self).errors@).push(name@ + what@));
    }

    /// Keeps an entry in the place of the one of its name, or as the last.
    fn keep(&mut self, entry: Entry)
        ensures
            final(self)@ == (FormModel {
                errors: old(self)@.errors,
                entries: put(old(self)@.entries, entry@),
                fault: old(self)@.fault,
            }),
    {
        let ghost before = entry_models(self.entries@);
        let mut i: usize = 0;
        while i < self.entries.len()
            invariant
                i <= self.entries.len(),
                self.entries == old(self).entries,
                self.errors == old(self).errors,
                self.fault == old(self).fault,
                before == entry_models(self.entries@),
                forall|k: int| 0 <= k < i ==> (#[trigger] before[k]).name != entry@.name,
            decreases self.entries.len() - i,
        {
            if self.entries[i].name == entry.name {
                proof {
                    assert(before[i as int] == self.entries[i as int]@);
                    assert(is_first_at(before, entry@.name, i as int));
                    let at = choose|at: int| is_first_at(before, entry@.name, at);
                    if at < i {
                        assert(before[at].name != entry@.name);
                    }
                    if i < at {
                        assert(before[i as int].name != entry@.name);
                    }
                    assert(at == i);
                }
                self.entries.set(i, entry);
                assert(entry_models(self.entries@) =~= before.update(i as int, entry@));
                return ;
            }
            assert(before[i as int] == self.entries[i as int]@);
            i += 1;
        }
        proof {
            if exists|at: int| is_first_at(before, entry@.name, at) {
                let at = choose|at: int| is_first_at(before, entry@.name, at);
                assert(before[at].name != entry@.name);
            }
        }
        self.entries.push(entry);
        assert(entry_models(self.entries@) =~= before.push(entry@));
    }

    /// Takes one part with a verdict that is already known.
    ///
    /// An unknown, missing or mismatching part adds its complaint; a kept
    /// text takes the place of an earlier one of the same name. Names stay
    /// distinct.
    pub fn apply(&mut self, name: &str, value: &str, verdict: Verdict)
        ensures
            final(self)@ == apply_model(old(self)@, name@, value@, verdict),
            distinct_names(old(self)@.entries) ==> distinct_names(final(self)@.entries),
    {
        if self.fault {
            return ;
        }
        match verdict {
            Verdict::Unknown => self.complain(name, " is not a valid field"),
            Verdict::Ignored => {},
            Verdict::Missing => self.complain(name, " is required"),
            Verdict::Mismatch => self.complain(name, " is not valid"),
            Verdict::BadPattern => {
                self.fault = true;
            },
            Verdict::Keep { secret } => {
                let entry = Entry {
                    name: String::from_str(name),
                    value: String::from_str(value),
                    secret,
                };
                proof {
                    if distinct_names(old(self)@.entries) {
                        lemma_put_keeps_names_distinct(old(self)@.entries, entry@);
                    }
                }
                self.keep(entry);
            },
        }
    }

    /// Takes one part of the submitted form: its name and, where the driver
    /// read it, its text.
    pub fn record(&mut self, schema: &Vec<FieldRule>, name: &str, value: Option<&str>)
        ensures
            final(self)@ == record_model(
                old(self)@,
                rule_models(schema@),
                name@,
                text_model(value),
            ),
            distinct_names(old(self)@.entries) ==> distinct_names(final(self)@.entries),
    {
        if self.fault {
            return ;
        }
        let verdict = judge(schema, name, value);
        match value {
            Some(text) => self.apply(name, text, verdict),
            None => self.apply(name, "", verdict),
        }
    }
}

/// The lines of a list joined by line feeds.
pub open spec fn join_lines(lines: Seq<Seq<char>>) -> Seq<char>
    decreases lines.len(),
{
    if lines.len() == 0 {
        Seq::empty()
    } else if lines.len() == 1 {
        lines[0]
    } else {
        join_lines(lines.drop_last()) + "\n"@ + lines.last()
    }
}

/// Joins lines by line feeds.
pub fn join(lines: &Vec<String>) -> (joined: String)
    ensures
        joined@ == join_lines(texts(lines@)),
{
    let mut joined = String::new();
    let mut i: usize = 0;
    while i < lines.len()
        invariant
            i <= lines.len(),
            joined@ == join_lines(texts(lines@).take(i as int)),
        decreases lines.len() - i,
    {
        let ghost all = texts(lines@);
        assert(all.take(i + 1).drop_last() =~= all.take(i as int));
        assert(all.take(i + 1).last() == lines[i as int]@);
        if i > 0 {
            joined.append("\n");
        } else {
            assert(joined@ =~= Seq::<char>::empty());
            assert(joined@ + lines[i as int]@ =~= lines[i as int]@);
        }
        joined.append(lines[i].as_str());
        i += 1;
    }
    assert(texts(lines@).take(lines.len() as int) =~= texts(lines@));
    joined
}

/// How the validation of a form ended.
#[derive(Clone, Debug, PartialEq, Eq)]
pub enum Validated {
    /// The schema is faulty: a pattern of it cannot be compiled.
    Fault,
    /// The form is turned down with this response.
    Rejected(FixedResponse),
    /// The form is in order, and these are the texts to store.
    Accepted(Vec<Entry>),
}

/// The mathematical value of a [`Validated`].
pub enum ValidatedModel {
    Fault,
    Rejected(ResponseModel),
    Accepted(Seq<EntryModel>),
}

impl View for Validated {
    type V = ValidatedModel;

    open spec fn view(&self) -> ValidatedModel {
        match self {
            Validated::Fault => ValidatedModel::Fault,
            Validated::Rejected(response) => ValidatedModel::Rejected(response@),
            Validated::Accepted(entries) => ValidatedModel::Accepted(entry_models(entries@)),
        }
    }
}

/// How a form ends: in a fault of the schema, in a client error that lists
/// every complaint on a line of its own, or in the texts to store.
pub open spec fn finish_model(form: FormModel) -> ValidatedModel {
    if form.fault {
        ValidatedModel::Fault
    } else if form.errors.len() > 0 {
        ValidatedModel::Rejected(ResponseModel { status: 400, body: join_lines(form.errors) })
    } else {
        ValidatedModel::Accepted(form.entries)
    }
}

impl FormState {
    /// Ends the validation.
    pub fn finish(self) -> (validated: Validated)
        ensures
            validated@ == finish_model(self@),
    {
        if self.fault {
            Validated::Fault
        } else if self.errors.len() > 0 {
            Validated::Rejected(FixedResponse { status: 400, body: join(&self.errors) })
        } else {
            Validated::Accepted(self.entries)
        }
    }
}

/// One part of a submitted form: its name and, where it was read, its text.
#[derive(Clone, Debug, PartialEq, Eq)]
pub struct FormPart {
    pub name: String,
    pub value: Option<String>,
}

/// The mathematical value of a [`FormPart`].
pub struct PartModel {
    pub name: Seq<char>,
    pub value: Option<Seq<char>>,
}

impl View for FormPart {
    type V = PartModel;

    open spec fn view(&self) -> PartModel {
        PartModel {
            name: self.name@,
            value: match self.value {
                Some(text) => Some(text@),
                None => None,
            },
        }
    }
}

/// The parts of a list, in order.
pub open spec fn part_models(parts: Seq<FormPart>) -> Seq<PartModel> {
    Seq::new(parts.len(), |i: int| parts[i]@)
}

/// The form after the given parts, taken in order.
pub open spec fn form_after(schema: Seq<RuleModel>, parts: Seq<PartModel>) -> FormModel
    decreases parts.len(),
{
    if parts.len() == 0 {
        empty_form()
    } else {
        record_model(
            form_after(schema, parts.drop_last()),
            schema,
            parts.last().name,
            parts.last().value,
        )
    }
}

/// Holds every part of a submitted form against the schema, in order.
pub fn validate(schema: &Vec<FieldRule>, parts: &Vec<FormPart>) -> (form: FormState)
    ensures
        form@ == form_after(rule_models(schema@), part_models(parts@)),
        distinct_names(form@.entries),
{
    let mut form = FormState::new();
    let mut i: usize = 0;
    while i < parts.len()
        invariant
            i <= parts.len(),
            form@ == form_after(rule_models(schema@), part_models(parts@).take(i as int)),
            distinct_names(form@.entries),
        decreases parts.len() - i,
    {
        let ghost all = part_models(parts@);
        assert(all.take(i + 1).drop_last() =~= all.take(i as int));
        assert(all.take(i + 1).last() == parts[i as int]@);
        let part = &parts[i];
        match &part.value {
            Some(text) => form.record(schema, part.name.as_str(), Some(text.as_str())),
            None => form.record(schema, part.name.as_str(), None),
        }
        i += 1;
    }
    assert(part_models(parts@).take(parts.len() as int) =~= part_models(parts@));
    form
}

/// The boundary of a multipart form, or the response that turns the
/// request down, from what the content type was read as.
pub fn boundary_or_reject(parsed: Option<String>) -> (boundary: Result<String, FixedResponse>)
    ensures
        match boundary {
            Ok(text) => parsed == Some(text),
            Err(response) => parsed is None && response@ == invalid_boundary_model(),
        },
{
    match parsed {
        Some(text) => Ok(text),
        None => Err(invalid_boundary_response()),
    }
}

/// The boundary of a multipart form from the content type of its request.
/// A request without a content type, or with one that names no boundary of
/// a multipart form, is turned down as a client error.
pub fn form_boundary(content_type: Option<&str>) -> (boundary: Result<String, FixedResponse>)
    ensures
        match boundary {
            Ok(text) => content_type is Some && boundary_of(content_type->0@) == Some(text@),
            Err(response) => {
                &&& content_type is None || boundary_of(content_type->0@) is None
                &&& response@ == invalid_boundary_model()
            },
        },
{
    let parsed = match content_type {
        Some(text) => match parse_boundary(text) {
            Ok(boundary) => Some(boundary),
            Err(_) => None,
        },
        None => None,
    };
    boundary_or_reject(parsed)
}

/// The hash that stands for an entry in a list of hashes: the one at its
/// index, none beyond the end of the list.
pub open spec fn hash_at(hashes: Seq<Option<Seq<char>>>, i: int) -> Option<Seq<char>> {
    if 0 <= i < hashes.len() {
        hashes[i]
    } else {
        None
    }
}

/// The hashes of a list, in order.
pub open spec fn hash_models(hashes: Seq<Option<String>>) -> Seq<Option<Seq<char>>> {
    Seq::new(
        hashes.len(),
        |i: int|
            match hashes[i] {
                Some(hash) => Some(hash@),
                None => None,
            },
    )
}

/// The pairs of a list, in order.
pub open spec fn pair_models(pairs: Seq<(String, String)>) -> Seq<(Seq<char>, Seq<char>)> {
    Seq::new(pairs.len(), |i: int| (pairs[i].0@, pairs[i].1@))
}

/// Whether every secret among the entries has its hash.
pub open spec fn all_hashed(entries: Seq<EntryModel>, hashes: Seq<Option<Seq<char>>>) -> bool {
    forall|i: int|
        0 <= i < entries.len() && (#[trigger] entries[i]).secret ==> hash_at(hashes, i) is Some
}

/// What is stored for an entry: its name with its text, or with its hash
/// where it is a secret.
pub open spec fn stored(entry: EntryModel, hash: Option<Seq<char>>) -> (Seq<char>, Seq<char>) {
    (
        entry.name,
        if entry.secret {
            hash->0
        } else {
            entry.value
        },
    )
}

/// What is stored for the entries of a form, given the hash of each secret:
/// nothing where the hash of a secret is wanting.
pub open spec fn sealed_model(entries: Seq<EntryModel>, hashes: Seq<Option<Seq<char>>>) -> Option<
    Seq<(Seq<char>, Seq<char>)>,
> {
    if all_hashed(entries, hashes) {
        Some(Seq::new(entries.len(), |i: int| stored(entries[i], hash_at(hashes, i))))
    } else {
        None
    }
}

/// Whether a text is the hash of a password under some salt.
pub open spec fn is_salted_hash(password: Seq<char>, hash: Seq<char>) -> bool {
    exists|salt: Seq<char>| salted_hash(password, salt) == Some(hash)
}

/// Whether a list of hashes fits the entries of a form: it has a place for
/// every entry, and what stands in a place is the hash, under some salt, of
/// the secret that the entry holds. The place of an entry that is no secret
/// is empty.
pub open spec fn hashes_fit(entries: Seq<EntryModel>, hashes: Seq<Option<Seq<char>>>) -> bool {
    &&& hashes.len() == entries.len()
    &&& forall|i: int|
        0 <= i < entries.len() ==> match #[trigger] hashes[i] {
            Some(hash) => entries[i].secret && is_salted_hash(entries[i].value, hash),
            None => true,
        }
}

/// The hash of a secret under a salt that was drawn for it; nothing where
/// no salt could be drawn.
pub fn hash_secret(password: &str, salt: Option<String>) -> (hash: Option<String>)
    ensures
        match hash {
            Some(text) => salt is Some && salted_hash(password@, salt->0@) == Some(text@),
            None => salt is None || salted_hash(password@, salt->0@) is None,
        },
{
    match salt {
        Some(drawn) => match hash_with_salt(password, drawn.as_str()) {
            Ok(text) => Some(text),
            Err(_) => None,
        },
        None => None,
    }
}

/// Hashes the secrets among the entries, each under a salt of its own,
/// drawn at random. The list that comes back fits the entries; the place of
/// a secret whose hashing failed stays empty.
pub fn hash_secrets(entries: &Vec<Entry>) -> (hashes: Vec<Option<String>>)
    ensures
        hashes_fit(entry_models(entries@), hash_models(hashes@)),
{
    let mut hashes: Vec<Option<String>> = Vec::new();
    let mut i: usize = 0;
    while i < entries.len()
        invariant
            i <= entries.len(),
            hashes.len() == i,
            hashes_fit(entry_models(entries@).take(i as int), hash_models(hashes@)),
        decreases entries.len() - i,
    {
        let ghost before = hash_models(hashes@);
        let hash = if entries[i].secret {
            hash_secret(entries[i].value.as_str(), random_salt())
        } else {
            None
        };
        hashes.push(hash);
        proof {
            let after = hash_models(hashes@);
            let taken = entry_models(entries@).take(i + 1);
            assert forall|k: int| 0 <= k < taken.len() implies match #[trigger] after[k] {
                Some(text) => taken[k].secret && is_salted_hash(taken[k].value, text),
                None => true,
            } by {
                if k < i {
                    assert(after[k] == before[k]);
                    assert(taken[k] == entry_models(entries@).take(i as int)[k]);
                }
            }
        }
        i += 1;
    }
    assert(entry_models(entries@).take(entries.len() as int) =~= entry_models(entries@));
    hashes
}

/// Puts the hash of each secret in the place of its text.
pub fn seal(entries: Vec<Entry>, hashes: Vec<Option<String>>) -> (sealed: Option<
    Vec<(String, String)>,
>)
    ensures
        match sealed {
            Some(pairs) => sealed_model(entry_models(entries@), hash_models(hashes@)) == Some(
                pair_models(pairs@),
            ),
            None => sealed_model(entry_models(entries@), hash_models(hashes@)) is None,
        },
{
    let ghost models = entry_models(entries@);
    let ghost given = hash_models(hashes@);
    let mut pairs: Vec<(String, String)> = Vec::new();
    let total = entries.len();
    let mut i: usize = 0;
    while i < total
        invariant
            i <= total,
            total == entries.len(),
            models == entry_models(entries@),
            given == hash_models(hashes@),
            pairs.len() == i,
            forall|k: int| 0 <= k < i && (#[trigger] models[k]).secret ==> hash_at(given, k) is Some,
            forall|k: int|
                0 <= k < i ==> (#[trigger] pairs[k].0)@ == stored(models[k], hash_at(given, k)).0,
            forall|k: int|
                0 <= k < i ==> (#[trigger] pairs[k].1)@ == stored(models[k], hash_at(given, k)).1,
        decreases total - i,
    {
        let name = String::from_str(entries[i].name.as_str());
        let text = if entries[i].secret {
            let hash = if i < hashes.len() {
                match &hashes[i] {
                    Some(hash) => Some(String::from_str(hash.as_str())),
                    None => None,
                }
            } else {
                None
            };
            match hash {
                Some(hash) => hash,
                None => {
                    assert(models[i as int].secret && hash_at(given, i as int) is None);
                    assert(!all_hashed(models, given));
                    return None;
                },
            }
        } else {
            String::from_str(entries[i].value.as_str())
        };
        pairs.push((name, text));
        i += 1;
    }
    proof {
        assert(all_hashed(models, given));
        assert(pair_models(pairs@) =~= Seq::new(
            models.len(),
            |i: int| stored(models[i], hash_at(given, i)),
        ));
    }
    Some(pairs)
}

/// What the storage behind the forms is asked to do.
#[derive(Clone, Debug, PartialEq, Eq)]
pub enum StorageCommand {
    /// Create the table, if it is not there.
    CreateTable,
    /// Store these fields as a row.
    Insert(Vec<(String, String)>),
    /// Look up the row with these fields.
    Query(Vec<(String, String)>),
}

/// The mathematical value of a [`StorageCommand`].
pub enum CommandModel {
    CreateTable,
    Insert(Seq<(Seq<char>, Seq<char>)>),
    Query(Seq<(Seq<char>, Seq<char>)>),
}

impl View for StorageCommand {
    type V = CommandModel;

    open spec fn view(&self) -> CommandModel {
        match self {
            StorageCommand::CreateTable => CommandModel::CreateTable,
            StorageCommand::Insert(pairs) => CommandModel::Insert(pair_models(pairs@)),
            StorageCommand::Query(pairs) => CommandModel::Query(pair_models(pairs@)),
        }
    }
}

/// The values of a list of commands, in order.
pub open spec fn command_models(commands: Seq<StorageCommand>) -> Seq<CommandModel> {
    Seq::new(commands.len(), |i: int| commands[i]@)
}

/// The answer to a submitted form: the response to the client and the
/// commands for the storage, to be performed in order before the response
/// is sent.
#[derive(Clone, Debug, PartialEq, Eq)]
pub struct FormReply {
    pub response: FixedResponse,
    pub commands: Vec<StorageCommand>,
}

/// The mathematical value of a [`FormReply`].
pub struct ReplyModel {
    pub response: ResponseModel,
    pub commands: Seq<CommandModel>,
}

impl View for FormReply {
    type V = ReplyModel;

    open spec fn view(&self) -> ReplyModel {
        ReplyModel { response: self.response@, commands: command_models(self.commands@) }
    }
}

/// Which of the two forms was submitted.
#[derive(Clone, Copy, Debug, PartialEq, Eq, Structural)]
pub enum FormUse {
    /// A login: the fields are looked up.
    Login,
    /// The first set-up: the table is created and the fields are stored.
    Init,
}

/// The commands an accepted form comes to. A login looks its fields up,
/// unless there are none; a set-up creates the table and stores them.
pub open spec fn commands_model(form_use: FormUse, pairs: Seq<(Seq<char>, Seq<char>)>) -> Seq<
    CommandModel,
> {
    match form_use {
        FormUse::Login => if pairs.len() > 0 {
            seq![CommandModel::Query(pairs)]
        } else {
            Seq::empty()
        },
        FormUse::Init => seq![CommandModel::CreateTable, CommandModel::Insert(pairs)],
    }
}

/// The answer to a form, from how its validation ended and from the hash of
/// each secret. A fault answers with a server error, a rejected form with
/// its client error, and neither touches the storage.
pub open spec fn reply_model(
    form_use: FormUse,
    validated: ValidatedModel,
    hashes: Seq<Option<Seq<char>>>,
) -> ReplyModel {
    match validated {
        ValidatedModel::Fault => ReplyModel {
            response: schema_fault_model(),
            commands: Seq::empty(),
        },
        ValidatedModel::Rejected(response) => ReplyModel { response, commands: Seq::empty() },
        ValidatedModel::Accepted(entries) => match sealed_model(entries, hashes) {
            None => ReplyModel { response: hash_fault_model(), commands: Seq::empty() },
            Some(pairs) => ReplyModel {
                response: form_accepted_model(),
                commands: commands_model(form_use, pairs),
            },
        },
    }
}

/// The answer to a form whose validation has ended and whose secrets have
/// been hashed.
pub fn reply(form_use: FormUse, validated: Validated, hashes: Vec<Option<String>>) -> (answer:
    FormReply)
    ensures
        answer@ == reply_model(form_use, validated@, hash_models(hashes@)),
{
    match validated {
        Validated::Fault => {
            let commands: Vec<StorageCommand> = Vec::new();
            assert(command_models(commands@) =~= Seq::<CommandModel>::empty());
            FormReply { response: schema_fault_response(), commands }
        },
        Validated::Rejected(response) => {
            let commands: Vec<StorageCommand> = Vec::new();
            assert(command_models(commands@) =~= Seq::<CommandModel>::empty());
            FormReply { response, commands }
        },
        Validated::Accepted(entries) => match seal(entries, hashes) {
            None => {
                let commands: Vec<StorageCommand> = Vec::new();
                assert(command_models(commands@) =~= Seq::<CommandModel>::empty());
                FormReply { response: hash_fault_response(), commands }
            },
            Some(pairs) => {
                let ghost stored = pair_models(pairs@);
                let mut commands: Vec<StorageCommand> = Vec::new();
                match form_use {
                    FormUse::Login => {
                        if pairs.len() > 0 {
                            commands.push(StorageCommand::Query(pairs));
                        }
                    },
                    FormUse::Init => {
                        commands.push(StorageCommand::CreateTable);
                        commands.push(StorageCommand::Insert(pairs));
                    },
                }
                assert(command_models(commands@) =~= commands_model(form_use, stored));
                FormReply { response: form_accepted_response(), commands }
            },
        },
    }
}

/// The texts that a validation kept: those of an accepted form, and none
/// otherwise.
pub open spec fn kept(validated: ValidatedModel) -> Seq<EntryModel> {
    match validated {
        ValidatedModel::Accepted(entries) => entries,
        _ => Seq::empty(),
    }
}

/// What an answer to the given parts may be: the reply for how their
/// validation ended and for some hashes that fit the secrets it kept.
pub open spec fn answers(
    form_use: FormUse,
    schema: Seq<RuleModel>,
    parts: Seq<PartModel>,
    answer: ReplyModel,
) -> bool {
    let validated = finish_model(form_after(schema, parts));
    exists|hashes: Seq<Option<Seq<char>>>|
        hashes_fit(kept(validated), hashes) && #[trigger] reply_model(form_use, validated, hashes)
            == answer
}

/// Answers a submitted form of either use: validates its parts, hashes the
/// secrets of an accepted form, and replies.
///
/// The salts are drawn at random, so the contract says what the answer is
/// for the hashes that came of them, whatever they are.
pub fn handle_form(form_use: FormUse, schema: &Vec<FieldRule>, parts: &Vec<FormPart>) -> (answer:
    FormReply)
    ensures
        answers(form_use, rule_models(schema@), part_models(parts@), answer@),
{
    let validated = validate(schema, parts).finish();
    let hashes = match &validated {
        Validated::Accepted(entries) => hash_secrets(entries),
        _ => Vec::new(),
    };
    proof {
        let given = hash_models(hashes@);
        if !(validated@ is Accepted) {
            assert(given =~= Seq::<Option<Seq<char>>>::empty());
        }
        assert(hashes_fit(kept(validated@), given));
    }
    let answer = reply(form_use, validated, hashes);
    assert(reply_model(form_use, validated@, hash_models(hashes@)) == answer@);
    answer
}

/// Answers a submitted login form. Its fields are looked up in the storage,
/// unless it has none.
pub fn handle_user_login(schema: &Vec<FieldRule>, parts: &Vec<FormPart>) -> (answer: FormReply)
    ensures
        answers(FormUse::Login, rule_models(schema@), part_models(parts@), answer@),
{
    handle_form(FormUse::Login, schema, parts)
}

/// Answers a submitted set-up form. The table is created and the fields
/// are stored.
pub fn handle_user_init(schema: &Vec<FieldRule>, parts: &Vec<FormPart>) -> (answer: FormReply)
    ensures
        answers(FormUse::Init, rule_models(schema@), part_models(parts@), answer@),
{
    handle_form(FormUse::Init, schema, parts)
}

/// A form that is not accepted has one answer, whatever the hashes.
pub proof fn lemma_failed_form_has_one_answer(
    form_use: FormUse,
    schema: Seq<RuleModel>,
    parts: Seq<PartModel>,
    answer: ReplyModel,
)
    requires
        answers(form_use, schema, parts, answer),
        !(finish_model(form_after(schema, parts)) is Accepted),
    ensures
        answer == reply_model(form_use, finish_model(form_after(schema, parts)), Seq::empty()),
{
}

/// An accepted form without secrets has one answer: its texts are stored
/// as they are.
pub proof fn lemma_plain_form_has_one_answer(
    form_use: FormUse,
    schema: Seq<RuleModel>,
    parts: Seq<PartModel>,
    answer: ReplyModel,
)
    requires
        answers(form_use, schema, parts, answer),
        finish_model(form_after(schema, parts)) is Accepted,
        forall|i: int|
            0 <= i < kept(finish_model(form_after(schema, parts))).len() ==> !(#[trigger] kept(
                finish_model(form_after(schema, parts)),
            )[i]).secret,
    ensures
        ({
            let entries = kept(finish_model(form_after(schema, parts)));
            let pairs = Seq::new(entries.len(), |i: int| (entries[i].name, entries[i].value));
            answer == ReplyModel {
                response: form_accepted_model(),
                commands: commands_model(form_use, pairs),
            }
        }),
{
    let validated = finish_model(form_after(schema, parts));
    let hashes = choose|hashes: Seq<Option<Seq<char>>>|
        hashes_fit(kept(validated), hashes) && #[trigger] reply_model(form_use, validated, hashes)
            == answer;
    lemma_plain_form_needs_no_hash(kept(validated), hashes);
}

/// A form without secrets is stored as it is, whatever hashes are given.
pub proof fn lemma_plain_form_needs_no_hash(
    entries: Seq<EntryModel>,
    hashes: Seq<Option<Seq<char>>>,
)
    requires
        forall|i: int| 0 <= i < entries.len() ==> !(#[trigger] entries[i]).secret,
    ensures
        sealed_model(entries, hashes) == Some(
            Seq::new(entries.len(), |i: int| (entries[i].name, entries[i].value)),
        ),
{
    assert(all_hashed(entries, hashes));
    assert(sealed_model(entries, hashes)->0 =~= Seq::new(
        entries.len(),
        |i: int| (entries[i].name, entries[i].value),
    ));
}

} // verus!
