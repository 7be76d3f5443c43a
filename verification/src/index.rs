//! The projection of a datapoint into the record that a text index takes.

use vstd::prelude::*;
use vstd::string::StringExecFns;

use crate::identifier::{hyphenated, hyphenated_text};
use crate::datapoint::{Datapoint, DatapointModel};
use crate::error::ProjectionError;
use crate::json::{
    distinct_keys, entries_view, json_text, lemma_array_view, lemma_find_from, lemma_object_view,
    values_view, Json, JsonValue,
};

verus! {

/// One message of a chat.
#[derive(Debug, PartialEq, Eq)]
pub struct ChatMessage {
    /// Who speaks.
    pub role: String,
    /// What is said.
    pub content: String,
}

/// The mathematical model of a chat message.
pub struct ChatMessageModel {
    pub role: Seq<char>,
    pub content: Seq<char>,
}

impl View for ChatMessage {
    type V = ChatMessageModel;

    open spec fn view(&self) -> ChatMessageModel {
        ChatMessageModel { role: self.role@, content: self.content@ }
    }
}

/// The models of a list of chat messages, in order.
pub open spec fn messages_view(messages: Seq<ChatMessage>) -> Seq<ChatMessageModel> {
    Seq::new(messages.len(), |i: int| messages[i]@)
}

/// What a field of a payload can hold for the index: a plain value, or a
/// list of chat messages.
#[derive(Debug, PartialEq, Eq)]
pub enum NodeInput {
    Boolean(bool),
    /// A number, as its literal text.
    Number(String),
    Text(String),
    ChatMessageList(Vec<ChatMessage>),
}

/// The mathematical model of a node input.
pub enum NodeInputModel {
    Boolean(bool),
    Number(Seq<char>),
    Text(Seq<char>),
    ChatMessageList(Seq<ChatMessageModel>),
}

impl View for NodeInput {
    type V = NodeInputModel;

    open spec fn view(&self) -> NodeInputModel {
        match self {
            NodeInput::Boolean(b) => NodeInputModel::Boolean(*b),
            NodeInput::Number(text) => NodeInputModel::Number(text@),
            NodeInput::Text(text) => NodeInputModel::Text(text@),
            NodeInput::ChatMessageList(messages) => NodeInputModel::ChatMessageList(
                messages_view(messages@),
            ),
        }
    }
}

/// The record that the text index takes. The names of its fields, and that
/// every value is a string, are what the index expects.
#[derive(Debug, PartialEq, Eq)]
pub struct VectorDBDatapoint {
    /// The text to index.
    pub content: String,
    /// The identifier of the owning dataset, as text.
    pub datasource_id: String,
    /// The metadata of the datapoint, each value as text. It stands for a
    /// mapping: a well-formed record has no key twice.
    pub data: Vec<(String, String)>,
    /// The identifier of the datapoint, as text.
    pub id: String,
}

/// The mathematical model of a record of the text index.
pub struct VectorDBDatapointModel {
    pub content: Seq<char>,
    pub datasource_id: Seq<char>,
    pub data: Seq<(Seq<char>, Seq<char>)>,
    pub id: Seq<char>,
}

impl VectorDBDatapointModel {
    /// Whether the metadata is a mapping: no key occurs twice.
    pub open spec fn well_formed(self) -> bool {
        distinct_keys(self.data)
    }
}

/// The models of a list of pairs of strings, in order.
pub open spec fn pairs_view(pairs: Seq<(String, String)>) -> Seq<(Seq<char>, Seq<char>)> {
    Seq::new(pairs.len(), |i: int| (pairs[i].0@, pairs[i].1@))
}

impl View for VectorDBDatapoint {
    type V = VectorDBDatapointModel;

    open spec fn view(&self) -> VectorDBDatapointModel {
        VectorDBDatapointModel {
            content: self.content@,
            datasource_id: self.datasource_id@,
            data: pairs_view(self.data@),
            id: self.id@,
        }
    }
}

/// The chat message that a value stands for: an object with a string under
/// `role` and a string under `content`.
pub open spec fn chat_message_of(value: Json) -> Option<ChatMessageModel> {
    match (value.get("role"@), value.get("content"@)) {
        (Some(Json::String(role)), Some(Json::String(content))) => Some(
            ChatMessageModel { role, content },
        ),
        _ => None,
    }
}

/// The chat messages that a list of values stands for, where each value
/// stands for one.
pub open spec fn chat_messages_of(items: Seq<Json>) -> Option<Seq<ChatMessageModel>> {
    if forall|i: int| 0 <= i < items.len() ==> chat_message_of(#[trigger] items[i]) is Some {
        Some(Seq::new(items.len(), |i: int| chat_message_of(items[i])->Some_0))
    } else {
        None
    }
}

/// The node input that a value stands for: a boolean, a number or a string
/// stands for itself, an array of chat messages for the list of them. No
/// other value is a node input.
pub open spec fn node_input_of(value: Json) -> Option<NodeInputModel> {
    match value {
        Json::Bool(b) => Some(NodeInputModel::Boolean(b)),
        Json::Number(text) => Some(NodeInputModel::Number(text)),
        Json::String(text) => Some(NodeInputModel::Text(text)),
        Json::Array(items) => match chat_messages_of(items) {
            Some(messages) => Some(NodeInputModel::ChatMessageList(messages)),
            None => None,
        },
        _ => None,
    }
}

/// The node inputs that a payload holds, by name: those of an object whose
/// values are all node inputs.
pub open spec fn node_inputs_of(data: Json) -> Option<Seq<(Seq<char>, NodeInputModel)>> {
    match data {
        Json::Object(entries) => if forall|i: int|
            0 <= i < entries.len() ==> node_input_of((#[trigger] entries[i]).1) is Some {
            Some(
                Seq::new(
                    entries.len(),
                    |i: int| (entries[i].0, node_input_of(entries[i].1)->Some_0),
                ),
            )
        } else {
            None
        },
        _ => None,
    }
}

/// The node input under the name `column` of a payload that holds node
/// inputs by name.
pub open spec fn indexed_input(data: Json, column: Seq<char>) -> Option<NodeInputModel> {
    match (node_inputs_of(data), data.get(column)) {
        (Some(_), Some(value)) => node_input_of(value),
        _ => None,
    }
}

/// One chat message as a line: the role, a colon and a blank, the content.
pub open spec fn message_line(message: ChatMessageModel) -> Seq<char> {
    message.role + ": "@ + message.content
}

/// The lines of the first `count` messages, with a line break between each
/// two.
pub open spec fn merged_first(messages: Seq<ChatMessageModel>, count: nat) -> Seq<char>
    decreases count,
{
    if count == 0 || count > messages.len() {
        Seq::empty()
    } else if count == 1 {
        message_line(messages[0])
    } else {
        merged_first(messages, (count - 1) as nat) + "\n"@ + message_line(messages[count - 1])
    }
}

/// A list of chat messages as one text: a line for each message, in order.
pub open spec fn merged(messages: Seq<ChatMessageModel>) -> Seq<char> {
    merged_first(messages, messages.len())
}

/// The text that a node input gives to the index: a string as it is, a
/// boolean and a number as JSON writes them, a list of chat messages merged.
pub open spec fn content_of(input: NodeInputModel) -> Seq<char> {
    match input {
        NodeInputModel::Boolean(b) => if b {
            "true"@
        } else {
            "false"@
        },
        NodeInputModel::Number(text) => text,
        NodeInputModel::Text(text) => text,
        NodeInputModel::ChatMessageList(messages) => merged(messages),
    }
}

/// The text that stands for a metadata value: a string as it is, any other
/// value as its JSON text.
pub open spec fn display_text(value: Json) -> Seq<char> {
    match value {
        Json::String(text) => text,
        _ => json_text(value),
    }
}

/// The metadata with each value as text.
pub open spec fn displayed(metadata: Seq<(Seq<char>, Json)>) -> Seq<(Seq<char>, Seq<char>)> {
    Seq::new(metadata.len(), |i: int| (metadata[i].0, display_text(metadata[i].1)))
}

/// The record that a datapoint gives to the index for the field `column`.
pub open spec fn projection(datapoint: DatapointModel, column: Seq<char>) -> VectorDBDatapointModel {
    VectorDBDatapointModel {
        content: content_of(indexed_input(datapoint.data, column)->Some_0),
        datasource_id: hyphenated_text(datapoint.dataset_id),
        data: displayed(datapoint.metadata),
        id: hyphenated_text(datapoint.id),
    }
}

/// Writing the values of a mapping as text keeps it a mapping: the keys
/// stay as they are, in their order.
pub proof fn lemma_displayed_keys(metadata: Seq<(Seq<char>, Json)>)
    ensures
        displayed(metadata).len() == metadata.len(),
        forall|i: int| 0 <= i < metadata.len() ==> (#[trigger] displayed(metadata)[i]).0 == metadata[i].0,
        distinct_keys(metadata) ==> distinct_keys(displayed(metadata)),
{
    if distinct_keys(metadata) {
        assert forall|i: int, j: int| 0 <= i < j < displayed(metadata).len() implies (
        #[trigger] displayed(metadata)[i]).0 != (#[trigger] displayed(metadata)[j]).0 by {
            assert(metadata[i].0 != metadata[j].0);
        }
    }
}

/// The node inputs of a payload have the payload's keys, in their order:
/// where the payload is a mapping, so are they.
pub proof fn lemma_node_inputs_keys(entries: Seq<(Seq<char>, Json)>)
    requires
        node_inputs_of(Json::Object(entries)) is Some,
    ensures
        node_inputs_of(Json::Object(entries))->Some_0.len() == entries.len(),
        forall|i: int|
            0 <= i < entries.len() ==> (#[trigger] node_inputs_of(Json::Object(entries))->Some_0[i]).0
                == entries[i].0,
        distinct_keys(entries) ==> distinct_keys(node_inputs_of(Json::Object(entries))->Some_0),
{
    let inputs = node_inputs_of(Json::Object(entries))->Some_0;
    if distinct_keys(entries) {
        assert forall|i: int, j: int| 0 <= i < j < inputs.len() implies (#[trigger] inputs[i]).0 != (
        #[trigger] inputs[j]).0 by {
            assert(entries[i].0 != entries[j].0);
        }
    }
}

/// The model of an optional chat message.
pub open spec fn option_message_view(message: Option<ChatMessage>) -> Option<ChatMessageModel> {
    match message {
        Some(m) => Some(m@),
        None => None,
    }
}

/// The model of an optional node input.
pub open spec fn option_input_view(input: Option<NodeInput>) -> Option<NodeInputModel> {
    match input {
        Some(i) => Some(i@),
        None => None,
    }
}

/// The models of a list of named node inputs, in order.
pub open spec fn inputs_view(inputs: Seq<(String, NodeInput)>) -> Seq<(Seq<char>, NodeInputModel)> {
    Seq::new(inputs.len(), |i: int| (inputs[i].0@, inputs[i].1@))
}

/// The model of an optional list of named node inputs.
pub open spec fn option_inputs_view(inputs: Option<Vec<(String, NodeInput)>>) -> Option<
    Seq<(Seq<char>, NodeInputModel)>,
> {
    match inputs {
        Some(list) => Some(inputs_view(list@)),
        None => None,
    }
}

impl ChatMessage {
    /// The chat message that a value stands for.
    pub fn from_json(value: &JsonValue) -> (r: Option<ChatMessage>)
        ensures
            option_message_view(r) == chat_message_of(value@),
    {
        match (value.get("role"), value.get("content")) {
            (Some(JsonValue::String(role)), Some(JsonValue::String(content))) => Some(
                ChatMessage { role: role.clone(), content: content.clone() },
            ),
            _ => None,
        }
    }
}

/// A list of chat messages as one text: for each message a line with its
/// role, a colon and a blank, and its content.
pub fn merge_chat_messages(messages: &Vec<ChatMessage>) -> (r: String)
    ensures
        r@ == merged(messages_view(messages@)),
{
    let ghost models = messages_view(messages@);
    let mut out = String::new();
    let mut i: usize = 0;
    while i < messages.len()
        invariant
            i <= messages.len(),
            models == messages_view(messages@),
            out@ == merged_first(models, i as nat),
        decreases messages.len() - i,
    {
        if i > 0 {
            out.append("\n");
        }
        out.append(messages[i].role.as_str());
        out.append(": ");
        out.append(messages[i].content.as_str());
        assert(out@ =~= merged_first(models, (i + 1) as nat));
        i += 1;
    }
    out
}

impl NodeInput {
    /// The node input that a value stands for.
    pub fn from_json(value: &JsonValue) -> (r: Option<NodeInput>)
        ensures
            option_input_view(r) == node_input_of(value@),
    {
        match value {
            JsonValue::Bool(b) => Some(NodeInput::Boolean(*b)),
            JsonValue::Number(text) => Some(NodeInput::Number(text.clone())),
            JsonValue::String(text) => Some(NodeInput::Text(text.clone())),
            JsonValue::Array(items) => {
                proof {
                    lemma_array_view(*items);
                }
                let ghost models = values_view(items@);
                let mut messages: Vec<ChatMessage> = Vec::new();
                let mut i: usize = 0;
                while i < items.len()
                    invariant
                        i <= items.len(),
                        models == values_view(items@),
                        value@ == Json::Array(models),
                        messages@.len() == i,
                        forall|j: int|
                            0 <= j < i ==> chat_message_of(#[trigger] models[j]) == Some(
                                messages@[j]@,
                            ),
                    decreases items.len() - i,
                {
                    match ChatMessage::from_json(&items[i]) {
                        Some(message) => {
                            messages.push(message);
                        },
                        None => {
                            assert(chat_message_of(models[i as int]) is None);
                            return None;
                        },
                    }
                    i += 1;
                }
                assert(messages_view(messages@) =~= chat_messages_of(models)->Some_0);
                Some(NodeInput::ChatMessageList(messages))
            },
            _ => None,
        }
    }

    /// The text that the node input gives to the index.
    pub fn to_text(&self) -> (r: String)
        ensures
            r@ == content_of(self@),
    {
        match self {
            NodeInput::Boolean(b) => if *b {
                String::from_str("true")
            } else {
                String::from_str("false")
            },
            NodeInput::Number(text) => text.clone(),
            NodeInput::Text(text) => text.clone(),
            NodeInput::ChatMessageList(messages) => merge_chat_messages(messages),
        }
    }
}

/// The node inputs that a payload holds, by name; nothing where the payload
/// is no object or one of its values is no node input.
pub fn parse_node_inputs(data: &JsonValue) -> (r: Option<Vec<(String, NodeInput)>>)
    ensures
        option_inputs_view(r) == node_inputs_of(data@),
{
    match data {
        JsonValue::Object(entries) => {
            proof {
                lemma_object_view(*entries);
            }
            let ghost models = entries_view(entries@);
            let mut inputs: Vec<(String, NodeInput)> = Vec::new();
            let mut i: usize = 0;
            while i < entries.len()
                invariant
                    i <= entries.len(),
                    models == entries_view(entries@),
                    data@ == Json::Object(models),
                    inputs@.len() == i,
                    forall|j: int|
                        0 <= j < i ==> node_input_of((#[trigger] models[j]).1) == Some(
                            inputs@[j].1@,
                        ) && inputs@[j].0@ == models[j].0,
                decreases entries.len() - i,
            {
                match NodeInput::from_json(&entries[i].1) {
                    Some(input) => {
                        inputs.push((entries[i].0.clone(), input));
                    },
                    None => {
                        assert(node_input_of(models[i as int].1) is None);
                        return None;
                    },
                }
                i += 1;
            }
            assert(inputs_view(inputs@) =~= node_inputs_of(data@)->Some_0);
            Some(inputs)
        },
        _ => None,
    }
}

/// The text that stands for a metadata value: a string as it is, any other
/// value as its JSON text.
pub fn json_value_to_string(value: &JsonValue) -> (r: String)
    ensures
        r@ == display_text(value@),
{
    match value {
        JsonValue::String(text) => text.clone(),
        _ => value.to_json(),
    }
}

impl Datapoint {
    /// Whether the datapoint can be indexed by the field `column`: its
    /// payload holds node inputs by name, one of them under this name.
    pub open spec fn indexable(&self, column: Seq<char>) -> bool {
        indexed_input(self.data@, column) is Some
    }

    /// The metadata with each value as text.
    fn displayed_metadata(&self) -> (r: Vec<(String, String)>)
        ensures
            pairs_view(r@) == displayed(self@.metadata),
    {
        let mut pairs: Vec<(String, String)> = Vec::new();
        let mut i: usize = 0;
        while i < self.metadata.len()
            invariant
                i <= self.metadata.len(),
                pairs@.len() == i,
                forall|j: int|
                    0 <= j < i ==> (#[trigger] pairs@[j]).0@ == self.metadata@[j].0@ && pairs@[j].1@
                        == display_text(self.metadata@[j].1@),
            decreases self.metadata.len() - i,
        {
            pairs.push((self.metadata[i].0.clone(), json_value_to_string(&self.metadata[i].1)));
            i += 1;
        }
        assert(pairs_view(pairs@) =~= displayed(self@.metadata));
        pairs
    }

    /// The record that the datapoint gives to the text index for the field
    /// `index_column`.
    ///
    /// The content is the text of that field: a list of chat messages
    /// merged, any other node input as it writes itself. The identifiers go
    /// over as text, the metadata with each value as text.
    pub fn into_vector_db_datapoint(&self, index_column: &String) -> (r: VectorDBDatapoint)
        requires
            self.indexable(index_column@),
        ensures
            r@ == projection(self@, index_column@),
            self@.well_formed() ==> r@.well_formed(),
    {
        proof {
            lemma_displayed_keys(self@.metadata);
        }
        let value = self.data.get(index_column.as_str()).unwrap();
        let input = NodeInput::from_json(value).unwrap();
        VectorDBDatapoint {
            content: input.to_text(),
            datasource_id: hyphenated(self.dataset_id),
            data: self.displayed_metadata(),
            id: hyphenated(self.id),
        }
    }

    /// The record that the datapoint gives to the text index for the field
    /// `index_column`, where it can be indexed by that field.
    ///
    /// A payload that holds no node inputs by name gives
    /// `ProjectionError::DataShape`; one that does, but none under this
    /// name, `ProjectionError::MissingField`.
    pub fn try_into_vector_db_datapoint(&self, index_column: &String) -> (r: Result<
        VectorDBDatapoint,
        ProjectionError,
    >)
        ensures
            match node_inputs_of(self@.data) {
                None => r == Err::<VectorDBDatapoint, ProjectionError>(ProjectionError::DataShape),
                Some(_) => match self@.data.get(index_column@) {
                    None => r == Err::<VectorDBDatapoint, ProjectionError>(
                        ProjectionError::MissingField,
                    ),
                    Some(_) => r matches Ok(record) && record@ == projection(
                        self@,
                        index_column@,
                    ),
                },
            },
            r is Ok <==> self.indexable(index_column@),
            self@.well_formed() ==> (r matches Ok(record) ==> record@.well_formed()),
    {
        if parse_node_inputs(&self.data).is_none() {
            return Err(ProjectionError::DataShape);
        }
        if self.data.get(index_column.as_str()).is_none() {
            return Err(ProjectionError::MissingField);
        }
        proof {
            let entries = self@.data->Object_0;
            lemma_find_from(entries, index_column@, 0);
        }
        Ok(self.into_vector_db_datapoint(index_column))
    }
}

} // verus!
