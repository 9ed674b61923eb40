use vstd::prelude::*;

use crate::text::{decimal, decimal_of};

verus! {

/// Why a pipeline call failed.
#[derive(Debug)]
pub enum MoaError {
    /// A requested backend has no entry in the response envelope.
    BackendNotFound(String),
    /// The network call itself failed.
    Transport(String),
    /// The response body did not have the expected envelope shape.
    Decode(String),
}

/// The mathematical model of a `MoaError`.
pub enum Failure {
    BackendNotFound(Seq<char>),
    Transport(Seq<char>),
    Decode(Seq<char>),
}

impl View for MoaError {
    type V = Failure;

    open spec fn view(&self) -> Failure {
        match self {
            MoaError::BackendNotFound(s) => Failure::BackendNotFound(s@),
            MoaError::Transport(s) => Failure::Transport(s@),
            MoaError::Decode(s) => Failure::Decode(s@),
        }
    }
}

/// The model of a result that carries text or a failure.
pub open spec fn result_view(r: Result<String, MoaError>) -> Result<Seq<char>, Failure> {
    match r {
        Ok(s) => Ok(s@),
        Err(e) => Err(e@),
    }
}

/// One piece of generated text.
#[derive(Debug)]
pub struct Message {
    content: String,
}

/// One candidate completion.
#[derive(Debug)]
pub struct Choice {
    message: Message,
}

/// The candidate completions of one backend; there is always at least one.
#[derive(Debug)]
pub struct Completion {
    choices: Vec<Choice>,
}

/// The result that one backend reported.
#[derive(Debug)]
pub struct Model {
    completion: Completion,
}

/// The per-backend results of a response, keyed by backend identifier.
#[derive(Debug)]
pub struct Data {
    completions: Vec<(String, Model)>,
}

/// A response envelope of the completion service.
#[derive(Debug)]
pub struct ApiResponse {
    data: Data,
}

impl View for Message {
    type V = Seq<char>;

    closed spec fn view(&self) -> Seq<char> {
        self.content@
    }
}

impl View for Choice {
    type V = Seq<char>;

    closed spec fn view(&self) -> Seq<char> {
        self.message@
    }
}

/// The texts of a list of candidates.
pub open spec fn choice_texts(s: Seq<Choice>) -> Seq<Seq<char>> {
    s.map_values(|c: Choice| c@)
}

impl View for Completion {
    type V = Seq<Seq<char>>;

    closed spec fn view(&self) -> Seq<Seq<char>> {
        choice_texts(self.choices@)
    }
}

impl View for Model {
    type V = Seq<Seq<char>>;

    closed spec fn view(&self) -> Seq<Seq<char>> {
        self.completion@
    }
}

/// The map from backend identifier to candidate texts that a list of entries holds.
pub open spec fn entries_map(s: Seq<(String, Model)>) -> Map<Seq<char>, Seq<Seq<char>>>
    decreases s.len(),
{
    if s.len() == 0 {
        Map::empty()
    } else {
        entries_map(s.drop_last()).insert(s.last().0@, s.last().1@)
    }
}

/// No two entries share a backend identifier.
pub open spec fn keys_distinct(s: Seq<(String, Model)>) -> bool {
    forall|i: int, j: int| 0 <= i < j < s.len() ==> s[i].0@ != s[j].0@
}

impl View for Data {
    type V = Map<Seq<char>, Seq<Seq<char>>>;

    closed spec fn view(&self) -> Map<Seq<char>, Seq<Seq<char>>> {
        entries_map(self.completions@)
    }
}

impl View for ApiResponse {
    type V = Map<Seq<char>, Seq<Seq<char>>>;

    closed spec fn view(&self) -> Map<Seq<char>, Seq<Seq<char>>> {
        self.data@
    }
}

proof fn lemma_entries_map_keys(s: Seq<(String, Model)>, k: Seq<char>)
    ensures
        entries_map(s).contains_key(k) <==> exists|i: int| 0 <= i < s.len() && s[i].0@ == k,
    decreases s.len(),
{
    if s.len() > 0 {
        lemma_entries_map_keys(s.drop_last(), k);
        if entries_map(s.drop_last()).contains_key(k) {
            let i = choose|i: int| 0 <= i < s.drop_last().len() && s.drop_last()[i].0@ == k;
            assert(s[i].0@ == k);
        }
        if exists|i: int| 0 <= i < s.len() && s[i].0@ == k {
            let i = choose|i: int| 0 <= i < s.len() && s[i].0@ == k;
            if i < s.len() - 1 {
                assert(s.drop_last()[i].0@ == k);
            }
        }
    }
}

proof fn lemma_entries_map_value(s: Seq<(String, Model)>, i: int)
    requires
        keys_distinct(s),
        0 <= i < s.len(),
    ensures
        entries_map(s).contains_key(s[i].0@),
        entries_map(s)[s[i].0@] == s[i].1@,
    decreases s.len(),
{
    if i < s.len() - 1 {
        assert(keys_distinct(s.drop_last()));
        assert(s.drop_last()[i] == s[i]);
        lemma_entries_map_value(s.drop_last(), i);
    }
}

impl Message {
    /// A message with the given text.
    pub fn new(content: String) -> (r: Message)
        ensures
            r@ == content@,
    {
        Message { content }
    }

    /// The text of the message.
    pub fn content(&self) -> (r: &String)
        ensures
            r@ == self@,
    {
        &self.content
    }
}

impl Choice {
    /// A candidate holding `message`.
    pub fn new(message: Message) -> (r: Choice)
        ensures
            r@ == message@,
    {
        Choice { message }
    }
}

impl Completion {
    #[verifier::type_invariant]
    spec fn has_candidate(&self) -> bool {
        self.choices.len() > 0
    }

    /// The candidates `choices`, or `None` where there is none.
    pub fn new(choices: Vec<Choice>) -> (r: Option<Completion>)
        ensures
            r is Some <==> choices.len() > 0,
            r matches Some(c) ==> c@ == choice_texts(choices@),
    {
        if choices.len() == 0 {
            None
        } else {
            Some(Completion { choices })
        }
    }

    /// The text of the first candidate.
    pub fn first_text(&self) -> (r: String)
        ensures
            self@.len() > 0,
            r@ == self@[0],
    {
        proof {
            use_type_invariant(self);
        }
        self.choices[0].message.content.clone()
    }
}

impl Model {
    /// The result of one backend, holding `completion`.
    pub fn new(completion: Completion) -> (r: Model)
        ensures
            r@ == completion@,
    {
        Model { completion }
    }
}

impl Data {
    #[verifier::type_invariant]
    spec fn keys_unique(&self) -> bool {
        keys_distinct(self.completions@)
    }

    /// An envelope body with no entries.
    pub fn new() -> (r: Data)
        ensures
            r@ == Map::<Seq<char>, Seq<Seq<char>>>::empty(),
    {
        Data { completions: Vec::new() }
    }

    /// The index of the entry for `id`, if there is one.
    fn position(&self, id: &String) -> (r: Option<usize>)
        ensures
            keys_distinct(self.completions@),
            match r {
                Some(i) => i < self.completions@.len() && self.completions@[i as int].0@ == id@,
                None => forall|i: int| 0 <= i < self.completions@.len() ==> self.completions@[i].0@ != id@,
            },
    {
        proof {
            use_type_invariant(self);
        }
        let mut i: usize = 0;
        while i < self.completions.len()
            invariant
                i <= self.completions@.len(),
                keys_distinct(self.completions@),
                forall|j: int| 0 <= j < i ==> self.completions@[j].0@ != id@,
            decreases self.completions.len() - i,
        {
            if self.completions[i].0 == *id {
                return Some(i);
            }
            i = i + 1;
        }
        None
    }

    /// These entries with `model` as the result of backend `id`, in place of an
    /// earlier one.
    pub fn with_entry(self, id: String, model: Model) -> (r: Data)
        ensures
            r@ == self@.insert(id@, model@),
    {
        let ghost before = self.completions@;
        let found = self.position(&id);
        let mut entries = self.completions;
        match found {
            Some(i) => {
                entries.set(i, (id, model));
                proof {
                    let after = entries@;
                    assert(keys_distinct(after));
                    assert forall|k: Seq<char>| #[trigger] entries_map(after).contains_key(k)
                        <==> entries_map(before).insert(after[i as int].0@, after[i as int].1@).contains_key(k) by {
                        lemma_entries_map_keys(after, k);
                        lemma_entries_map_keys(before, k);
                        if k != after[i as int].0@ && exists|j: int| 0 <= j < before.len() && before[j].0@ == k {
                            let j = choose|j: int| 0 <= j < before.len() && before[j].0@ == k;
                            assert(after[j] == before[j]);
                        }
                        if exists|j: int| 0 <= j < after.len() && after[j].0@ == k {
                            let j = choose|j: int| 0 <= j < after.len() && after[j].0@ == k;
                            if j != i {
                                assert(after[j] == before[j]);
                            }
                        }
                    };
                    assert forall|k: Seq<char>| #[trigger] entries_map(after).contains_key(k)
                        implies entries_map(after)[k] == entries_map(before).insert(after[i as int].0@, after[i as int].1@)[k] by {
                        lemma_entries_map_keys(after, k);
                        let j = choose|j: int| 0 <= j < after.len() && after[j].0@ == k;
                        lemma_entries_map_value(after, j);
                        if j != i {
                            assert(after[j] == before[j]);
                            lemma_entries_map_value(before, j);
                        }
                    };
                    assert(entries_map(after) =~= entries_map(before).insert(after[i as int].0@, after[i as int].1@));
                }
            },
            None => {
                entries.push((id, model));
                proof {
                    let after = entries@;
                    assert(after.drop_last() =~= before);
                    assert(keys_distinct(after));
                }
            },
        }
        Data { completions: entries }
    }
}

/// What the envelope `m` gives for backend `id`: the text of its first candidate.
pub open spec fn extracted(m: Map<Seq<char>, Seq<Seq<char>>>, id: Seq<char>) -> Result<Seq<char>, Failure> {
    if m.contains_key(id) {
        Ok(m[id][0])
    } else {
        Err(Failure::BackendNotFound(id))
    }
}

/// `text` between the delimiters of answer number `n`.
pub open spec fn section(n: nat, text: Seq<char>) -> Seq<char> {
    let tag = seq!['m', 'o', 'd', 'e', 'l'] + decimal_of(n) + seq!['_', 'r', 'e', 's', 'p', 'o', 'n', 's', 'e'];
    seq!['<'] + tag + seq!['>', '\n'] + text + seq!['\n', '<', '/'] + tag + seq!['>', '\n', '\n']
}

/// The answers of `ids` in `m`, each in its numbered section, in the order of
/// `ids`; or the failure of the first of `ids` that `m` lacks.
pub open spec fn gathered(m: Map<Seq<char>, Seq<Seq<char>>>, ids: Seq<Seq<char>>) -> Result<Seq<char>, Failure>
    decreases ids.len(),
{
    if ids.len() == 0 {
        Ok(Seq::empty())
    } else {
        match gathered(m, ids.drop_last()) {
            Err(e) => Err(e),
            Ok(s) => match extracted(m, ids.last()) {
                Err(e) => Err(e),
                Ok(t) => Ok(s + section(ids.len(), t)),
            },
        }
    }
}

/// `prompt` followed by what `gathered` gives, or its failure.
pub open spec fn merged(m: Map<Seq<char>, Seq<Seq<char>>>, ids: Seq<Seq<char>>, prompt: Seq<char>) -> Result<Seq<char>, Failure> {
    match gathered(m, ids) {
        Ok(s) => Ok(prompt + s),
        Err(e) => Err(e),
    }
}

/// Writes answer `text` in section number `n`.
fn numbered_section(n: usize, text: &str) -> (r: String)
    ensures
        r@ == section(n as nat, text@),
{
    proof {
        reveal_strlit("<model");
        reveal_strlit("_response>\n");
        reveal_strlit("\n</model");
        reveal_strlit("_response>\n\n");
    }
    let num = decimal(n);
    let mut r = String::from_str("<model");
    r.append(num.as_str());
    r.append("_response>\n");
    r.append(text);
    r.append("\n</model");
    r.append(num.as_str());
    r.append("_response>\n\n");
    let ghost tag = seq!['m', 'o', 'd', 'e', 'l'] + decimal_of(n as nat) + seq!['_', 'r', 'e', 's', 'p', 'o', 'n', 's', 'e'];
    assert(r@ =~= seq!['<'] + tag + seq!['>', '\n'] + text@ + seq!['\n', '<', '/'] + tag + seq!['>', '\n', '\n']);
    r
}

/// Once a prefix of `ids` fails, all of `ids` fails the same way.
proof fn lemma_gathered_failure_stays(m: Map<Seq<char>, Seq<Seq<char>>>, ids: Seq<Seq<char>>, k: int)
    requires
        0 <= k <= ids.len(),
        gathered(m, ids.subrange(0, k)) is Err,
    ensures
        gathered(m, ids) == gathered(m, ids.subrange(0, k)),
    decreases ids.len() - k,
{
    if k < ids.len() {
        assert(ids.subrange(0, k + 1).drop_last() =~= ids.subrange(0, k));
        lemma_gathered_failure_stays(m, ids, k + 1);
    } else {
        assert(ids.subrange(0, k) =~= ids);
    }
}

/// The numbered sections of the answers of `ids` in `m`, one per identifier.
pub open spec fn sections(m: Map<Seq<char>, Seq<Seq<char>>>, ids: Seq<Seq<char>>) -> Seq<Seq<char>> {
    Seq::new(ids.len(), |i: int| section((i + 1) as nat, m[ids[i]][0]))
}

/// Where the envelope holds every requested backend, the merge is exactly one
/// numbered section per requested backend, numbered from 1 in the order of the
/// request, whatever the order of the envelope's entries.
pub proof fn lemma_all_present_sections_in_order(m: Map<Seq<char>, Seq<Seq<char>>>, ids: Seq<Seq<char>>)
    requires
        forall|i: int| 0 <= i < ids.len() ==> m.contains_key(#[trigger] ids[i]),
    ensures
        gathered(m, ids) == Ok::<Seq<char>, Failure>(sections(m, ids).flatten()),
        sections(m, ids).len() == ids.len(),
        forall|i: int| 0 <= i < ids.len() ==> #[trigger] sections(m, ids)[i] == section((i + 1) as nat, m[ids[i]][0]),
    decreases ids.len(),
{
    if ids.len() > 0 {
        let pre = ids.drop_last();
        assert forall|i: int| 0 <= i < pre.len() implies m.contains_key(#[trigger] pre[i]) by {
            assert(pre[i] == ids[i]);
        };
        lemma_all_present_sections_in_order(m, pre);
        assert(sections(m, ids) =~= sections(m, pre).push(section(ids.len(), m[ids.last()][0])));
        sections(m, pre).lemma_flatten_push(section(ids.len(), m[ids.last()][0]));
    }
}

/// Entries recorded for two different backends give the same envelope in
/// either order.
pub proof fn lemma_entry_order_irrelevant(
    m: Map<Seq<char>, Seq<Seq<char>>>,
    k1: Seq<char>,
    v1: Seq<Seq<char>>,
    k2: Seq<char>,
    v2: Seq<Seq<char>>,
)
    requires
        k1 != k2,
    ensures
        m.insert(k1, v1).insert(k2, v2) == m.insert(k2, v2).insert(k1, v1),
{
    assert(m.insert(k1, v1).insert(k2, v2) =~= m.insert(k2, v2).insert(k1, v1));
}

/// Where the envelope lacks a requested backend, the merge fails naming the
/// first such backend in the order of the request, and yields no text.
pub proof fn lemma_first_missing_reported(
    m: Map<Seq<char>, Seq<Seq<char>>>,
    ids: Seq<Seq<char>>,
    prompt: Seq<char>,
    k: int,
)
    requires
        0 <= k < ids.len(),
        !m.contains_key(ids[k]),
        forall|j: int| 0 <= j < k ==> m.contains_key(#[trigger] ids[j]),
    ensures
        gathered(m, ids) == Err::<Seq<char>, Failure>(Failure::BackendNotFound(ids[k])),
        merged(m, ids, prompt) == Err::<Seq<char>, Failure>(Failure::BackendNotFound(ids[k])),
{
    let pre = ids.subrange(0, k);
    assert forall|i: int| 0 <= i < pre.len() implies m.contains_key(#[trigger] pre[i]) by {
        assert(pre[i] == ids[i]);
    };
    lemma_all_present_sections_in_order(m, pre);
    assert(ids.subrange(0, k + 1).drop_last() =~= pre);
    lemma_gathered_failure_stays(m, ids, k + 1);
}

impl ApiResponse {
    /// The envelope holding `data`.
    pub fn new(data: Data) -> (r: ApiResponse)
        ensures
            r@ == data@,
    {
        ApiResponse { data }
    }

    /// The first candidate's text for backend `model`, or `BackendNotFound`
    /// naming it where the envelope has no entry for it.
    pub fn process_response(&self, model: &str) -> (r: Result<String, MoaError>)
        ensures
            result_view(r) == extracted(self@, model@),
    {
        let id = String::from_str(model);
        match self.data.position(&id) {
            Some(i) => {
                let entry = &self.data.completions[i];
                proof {
                    lemma_entries_map_value(self.data.completions@, i as int);
                }
                Ok(entry.1.completion.first_text())
            },
            None => {
                proof {
                    lemma_entries_map_keys(self.data.completions@, id@);
                }
                Err(MoaError::BackendNotFound(id))
            },
        }
    }

    /// `ag_prompt` followed by the answer of each of `models`, in their order,
    /// each in a section numbered from 1; or the failure of the first model
    /// that the envelope lacks.
    pub fn process_middle(&self, models: &Vec<String>, ag_prompt: &String) -> (r: Result<String, MoaError>)
        ensures
            result_view(r) == merged(self@, crate::text::views(models@), ag_prompt@),
    {
        let ghost ids = crate::text::views(models@);
        let mut output = ag_prompt.clone();
        let mut i: usize = 0;
        assert(ids.subrange(0, 0) =~= Seq::<Seq<char>>::empty());
        assert(output@.subrange(ag_prompt@.len() as int, output@.len() as int) =~= Seq::<char>::empty());
        assert(output@.subrange(0, ag_prompt@.len() as int) =~= ag_prompt@);
        while i < models.len()
            invariant
                i <= models@.len(),
                ids == crate::text::views(models@),
                gathered(self@, ids.subrange(0, i as int)) == Ok::<Seq<char>, Failure>(output@.subrange(ag_prompt@.len() as int, output@.len() as int)),
                output@.len() >= ag_prompt@.len(),
                output@.subrange(0, ag_prompt@.len() as int) == ag_prompt@,
            decreases models.len() - i,
        {
            let ghost before = output@;
            let ghost pre = ids.subrange(0, i as int);
            let ghost next = ids.subrange(0, i + 1);
            assert(next.drop_last() =~= pre);
            assert(next.last() == models@[i as int]@);
            match self.process_response(models[i].as_str()) {
                Ok(text) => {
                    let piece = numbered_section(i + 1, text.as_str());
                    output.append(piece.as_str());
                    assert(output@.subrange(ag_prompt@.len() as int, output@.len() as int)
                        =~= before.subrange(ag_prompt@.len() as int, before.len() as int) + piece@);
                    assert(output@.subrange(0, ag_prompt@.len() as int) =~= before.subrange(0, ag_prompt@.len() as int));
                },
                Err(e) => {
                    proof {
                        lemma_gathered_failure_stays(self@, ids, i + 1);
                    }
                    return Err(e);
                },
            }
            i = i + 1;
        }
        assert(ids.subrange(0, i as int) =~= ids);
        assert(output@ =~= ag_prompt@ + output@.subrange(ag_prompt@.len() as int, output@.len() as int));
        Ok(output)
    }
}

} // verus!
