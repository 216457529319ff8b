//! Reports that name the subgraphs which have an element and those which do not.

use crate::ast::{InputValueDefinition, Node};
use crate::index_map::Sources;
use crate::merger::Merger;
use crate::report::{
    hint_record, CompositionError, CompositionHint, ErrorKind, ErrorRecord, FederationError,
    HintCode,
};
use crate::text::{join, join_first, same_text, texts};
use vstd::prelude::*;
use vstd::string::*;

verus! {

/// The name of a subgraph.
pub open spec fn name_at(names: Seq<Seq<char>>, subgraph: usize) -> Seq<char> {
    if subgraph < names.len() {
        names[subgraph as int]
    } else {
        "unknown"@
    }
}

/// The names of the subgraphs whose answer is the given one.
pub open spec fn names_with(
    names: Seq<Seq<char>>,
    subgraphs: Seq<usize>,
    answers: Seq<bool>,
    answer: bool,
) -> Seq<Seq<char>>
    decreases subgraphs.len(),
{
    if subgraphs.len() == 0 {
        Seq::empty()
    } else {
        let rest = names_with(names, subgraphs.drop_last(), answers, answer);
        if answers[subgraphs.len() - 1] == answer {
            rest.push(name_at(names, subgraphs.last()))
        } else {
            rest
        }
    }
}

/// The words for which subgraphs have an element and which do not.
pub open spec fn presence_text(having: Seq<Seq<char>>, missing: Seq<Seq<char>>) -> Seq<char> {
    let have = "defined in "@ + join(having, ", "@);
    let lack = "but not in "@ + join(missing, ", "@);
    if having.len() > 0 && missing.len() > 0 {
        have + " "@ + lack
    } else if having.len() > 0 {
        have
    } else if missing.len() > 0 {
        lack
    } else {
        Seq::empty()
    }
}

/// An error that says which subgraphs have the element, where it is about enum values; any other
/// error is as it was.
pub open spec fn with_specifics(
    error: ErrorRecord,
    having: Seq<Seq<char>>,
    missing: Seq<Seq<char>>,
) -> ErrorRecord {
    if error.kind == ErrorKind::EnumValueMismatch {
        ErrorRecord { message: error.message + presence_text(having, missing), ..error }
    } else {
        error
    }
}

/// The text of a hint that says which subgraphs have an element.
pub open spec fn presence_hint(
    text: Seq<char>,
    having: Seq<Seq<char>>,
    missing: Seq<Seq<char>>,
) -> Seq<char> {
    text + "defined in "@ + join(having, ", "@) + " but not in "@ + join(missing, ", "@)
}

/// The subgraphs of some sources.
pub open spec fn source_keys<T>(sources: Seq<(usize, Option<T>)>) -> Seq<usize> {
    sources.map_values(|s: (usize, Option<T>)| s.0)
}

/// Whether the answer says if the accessor returns `yes` for a source.
pub open spec fn is_yes<T, F: Fn(&Option<T>) -> &str>(
    accessor: F,
    source: Option<T>,
    answer: bool,
) -> bool {
    exists|text: &str| #[trigger]
        call_ensures(accessor, (&source,), text) && answer == (text@ == "yes"@)
}

/// Whether the answers say for which sources the accessor returns `yes`.
pub open spec fn says_yes<T, F: Fn(&Option<T>) -> &str>(
    accessor: F,
    sources: Seq<(usize, Option<T>)>,
    answers: Seq<bool>,
) -> bool {
    &&& answers.len() == sources.len()
    &&& forall|i: int|
        0 <= i < answers.len() ==> is_yes(accessor, sources[i].1, #[trigger] answers[i])
}

/// Whether the answers are those of the accessor for the sources.
pub open spec fn says<T, F: Fn(&Option<T>) -> bool>(
    accessor: F,
    sources: Seq<(usize, Option<T>)>,
    answers: Seq<bool>,
) -> bool {
    &&& answers.len() == sources.len()
    &&& forall|i: int|
        0 <= i < answers.len() ==> call_ensures(accessor, (&sources[i].1,), #[trigger] answers[i])
}

/// Joins all strings of a list.
fn join_all(parts: &Vec<String>, separator: &str) -> (result: String)
    ensures
        result@ == join(texts(parts@), separator@),
{
    assert(texts(parts@).take(parts.len() as int) =~= texts(parts@));
    join_first(parts, parts.len(), separator)
}

/// Lists the subgraphs of some sources.
fn list_keys<T>(sources: &Sources<T>) -> (keys: Vec<usize>)
    requires
        sources.well_formed(),
    ensures
        keys@ == source_keys(sources@),
{
    let mut keys: Vec<usize> = Vec::new();
    let mut i: usize = 0;
    while i < sources.len()
        invariant
            i <= sources@.len(),
            sources.well_formed(),
            keys.len() == i,
            forall|j: int| 0 <= j < i ==> (#[trigger] keys@[j]) == sources@[j].0,
        decreases sources@.len() - i,
    {
        keys.push(sources.key_at(i));
        i += 1;
    }
    assert(keys@ =~= source_keys(sources@));
    keys
}

impl Merger {
    /// Lists the names of the subgraphs whose answer is the given one.
    fn list_names(&self, subgraphs: &Vec<usize>, answers: &Vec<bool>, answer: bool) -> (list: Vec<
        String,
    >)
        requires
            answers.len() == subgraphs.len(),
        ensures
            texts(list@) == names_with(texts(self.names@), subgraphs@, answers@, answer),
    {
        let ghost names = texts(self.names@);
        let mut list: Vec<String> = Vec::new();
        let mut i: usize = 0;
        assert(subgraphs@.take(0) =~= Seq::<usize>::empty());
        assert(texts(list@) =~= Seq::<Seq<char>>::empty());
        while i < subgraphs.len()
            invariant
                i <= subgraphs.len(),
                answers.len() == subgraphs.len(),
                names == texts(self.names@),
                texts(list@) == names_with(names, subgraphs@.take(i as int), answers@, answer),
            decreases subgraphs.len() - i,
        {
            assert(subgraphs@.take(i + 1).drop_last() =~= subgraphs@.take(i as int));
            let ghost before = list@;
            if answers[i] == answer {
                let name = if subgraphs[i] < self.names.len() {
                    self.names[subgraphs[i]].clone()
                } else {
                    "unknown".to_owned()
                };
                list.push(name);
                assert(texts(list@) =~= texts(before).push(name@));
            }
            i += 1;
        }
        assert(subgraphs@.take(subgraphs.len() as int) =~= subgraphs@);
        list
    }

    /// Adds an error that says which subgraphs have the element: those whose answer is `true`.
    pub fn report_presence_error(
        &mut self,
        error: CompositionError,
        subgraphs: &Vec<usize>,
        answers: &Vec<bool>,
    )
        requires
            answers.len() == subgraphs.len(),
        ensures
            final(self).error_reporter@ == old(self).error_reporter@.with_error(
                with_specifics(
                    error@,
                    names_with(texts(old(self).names@), subgraphs@, answers@, true),
                    names_with(texts(old(self).names@), subgraphs@, answers@, false),
                ),
            ),
            *final(self) == (Merger { error_reporter: final(self).error_reporter, ..*old(self) }),
    {
        let mut message = error.message;
        if error.kind == ErrorKind::EnumValueMismatch {
            let having = self.list_names(subgraphs, answers, true);
            let missing = self.list_names(subgraphs, answers, false);
            assert(texts(having@).len() == having@.len());
            assert(texts(missing@).len() == missing@.len());
            let having_text = join_all(&having, ", ");
            let missing_text = join_all(&missing, ", ");
            let have = "defined in ".to_owned().concat(having_text.as_str());
            let lack = "but not in ".to_owned().concat(missing_text.as_str());
            let details = if having.len() > 0 && missing.len() > 0 {
                have.concat(" ").concat(lack.as_str())
            } else if having.len() > 0 {
                have
            } else if missing.len() > 0 {
                lack
            } else {
                String::new()
            };
            message = message.concat(details.as_str());
        }
        self.error_reporter.add_error(
            CompositionError { kind: error.kind, message, mismatch: error.mismatch },
        );
    }

    /// Adds a hint that says which subgraphs have the element: those whose answer is `true`.
    pub fn report_presence_hint(
        &mut self,
        code: HintCode,
        message: String,
        subgraphs: &Vec<usize>,
        answers: &Vec<bool>,
    )
        requires
            answers.len() == subgraphs.len(),
        ensures
            final(self).error_reporter@ == old(self).error_reporter@.with_hint(
                hint_record(
                    code.code_text(),
                    presence_hint(
                        message@,
                        names_with(texts(old(self).names@), subgraphs@, answers@, true),
                        names_with(texts(old(self).names@), subgraphs@, answers@, false),
                    ),
                    Seq::empty(),
                ),
            ),
            *final(self) == (Merger { error_reporter: final(self).error_reporter, ..*old(self) }),
    {
        let having = self.list_names(subgraphs, answers, true);
        let missing = self.list_names(subgraphs, answers, false);
        let having_text = join_all(&having, ", ");
        let missing_text = join_all(&missing, ", ");
        let text = message.concat("defined in ").concat(having_text.as_str()).concat(
            " but not in ",
        ).concat(missing_text.as_str());
        self.error_reporter.add_hint(CompositionHint::new(text, code.code().to_owned()));
    }

    /// Adds an error that says which subgraphs have the element: those for whose source the
    /// accessor returns `yes`.
    pub fn report_mismatch_error_with_specifics<T, F>(
        &mut self,
        error: CompositionError,
        sources: &Sources<T>,
        accessor: F,
    ) where F: Fn(&Option<T>) -> &str
        requires
            sources.well_formed(),
            forall|source: Option<T>| call_requires(accessor, (&source,)),
        ensures
            exists|answers: Seq<bool>| #[trigger]
                says_yes(accessor, sources@, answers) && final(self).error_reporter@ == old(
                    self,
                ).error_reporter@.with_error(
                    with_specifics(
                        error@,
                        names_with(
                            texts(old(self).names@),
                            source_keys(sources@),
                            answers,
                            true,
                        ),
                        names_with(
                            texts(old(self).names@),
                            source_keys(sources@),
                            answers,
                            false,
                        ),
                    ),
                ),
            *final(self) == (Merger { error_reporter: final(self).error_reporter, ..*old(self) }),
    {
        let mut answers: Vec<bool> = Vec::new();
        let mut i: usize = 0;
        while i < sources.len()
            invariant
                i <= sources@.len(),
                forall|source: Option<T>| call_requires(accessor, (&source,)),
                answers.len() == i,
                forall|j: int|
                    0 <= j < i ==> is_yes(accessor, sources@[j].1, #[trigger] answers@[j]),
            decreases sources@.len() - i,
        {
            let text = accessor(sources.item_at(i));
            let answer = same_text(text, "yes");
            assert(call_ensures(accessor, (&sources@[i as int].1,), text));
            assert(is_yes(accessor, sources@[i as int].1, answer));
            answers.push(answer);
            i += 1;
        }
        assert(says_yes(accessor, sources@, answers@));
        let keys = list_keys(sources);
        self.report_presence_error(error, &keys, &answers);
    }

    /// Adds a hint that says which subgraphs have the element: those for whose source the
    /// accessor returns `true`.
    pub fn report_mismatch_hint<T, F>(
        &mut self,
        code: HintCode,
        message: String,
        sources: &Sources<T>,
        accessor: F,
    ) where F: Fn(&Option<T>) -> bool
        requires
            sources.well_formed(),
            forall|source: Option<T>| call_requires(accessor, (&source,)),
        ensures
            exists|answers: Seq<bool>| #[trigger]
                says(accessor, sources@, answers) && final(self).error_reporter@ == old(
                    self,
                ).error_reporter@.with_hint(
                    hint_record(
                        code.code_text(),
                        presence_hint(
                            message@,
                            names_with(
                                texts(old(self).names@),
                                source_keys(sources@),
                                answers,
                                true,
                            ),
                            names_with(
                                texts(old(self).names@),
                                source_keys(sources@),
                                answers,
                                false,
                            ),
                        ),
                        Seq::empty(),
                    ),
                ),
            *final(self) == (Merger { error_reporter: final(self).error_reporter, ..*old(self) }),
    {
        let mut answers: Vec<bool> = Vec::new();
        let mut i: usize = 0;
        while i < sources.len()
            invariant
                i <= sources@.len(),
                forall|source: Option<T>| call_requires(accessor, (&source,)),
                answers.len() == i,
                forall|j: int|
                    0 <= j < i ==> call_ensures(
                        accessor,
                        (&sources@[j].1,),
                        #[trigger] answers@[j],
                    ),
            decreases sources@.len() - i,
        {
            answers.push(accessor(sources.item_at(i)));
            i += 1;
        }
        assert(says(accessor, sources@, answers@));
        let keys = list_keys(sources);
        self.report_presence_hint(code, message, &keys, &answers);
    }

    /// Merges the definitions of an argument. They are taken as they are: nothing changes.
    pub fn merge_argument(
        &mut self,
        _sources: &Sources<Node<InputValueDefinition>>,
        _dest: &Node<InputValueDefinition>,
    ) -> (result: Result<(), FederationError>)
        ensures
            result is Ok,
            *final(self) == *old(self),
    {
        Ok(())
    }
}

} // verus!
