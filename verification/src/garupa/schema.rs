//! Protobuf schemas required by the profile export endpoints.
//!
//! Each schema is built by a function whose contract gives its shape: the
//! number, name, kind and repetition of every field, nested messages
//! included.

use vstd::prelude::*;
use vstd::string::*;

verus! {

/// The type of a schema field.
pub enum ProtoType {
    Int,
    Long,
    String,
    Message(Box<Schema>),
}

/// A named field of a message schema.
pub struct Field {
    pub name: String,
    pub ty: ProtoType,
    pub repeated: bool,
}

/// A message schema: field numbers with their definitions.
pub struct Schema {
    pub fields: Vec<(u32, Field)>,
}

/// A field definition.
pub fn field(name: &str, ty: ProtoType, repeated: bool) -> (r: Field)
    ensures
        r.name@ == name@,
        r.ty == ty,
        r.repeated == repeated,
{
    Field { name: String::from_str(name), ty, repeated }
}

/// The kind of a field in a schema's shape; a message kind carries the
/// shape of the nested schema.
pub enum FieldKind {
    Int,
    Long,
    Text,
    Message(Seq<(u32, Seq<char>, FieldKind, bool)>),
}

/// The kind of a field type.
pub open spec fn kind_of(t: ProtoType) -> FieldKind
    decreases t,
{
    match t {
        ProtoType::Int => FieldKind::Int,
        ProtoType::Long => FieldKind::Long,
        ProtoType::String => FieldKind::Text,
        ProtoType::Message(s) => FieldKind::Message(fields_shape(s.fields@)),
    }
}

/// The shape of a list of fields: number, name, kind and repetition of
/// each, in order.
pub open spec fn fields_shape(fields: Seq<(u32, Field)>) -> Seq<(u32, Seq<char>, FieldKind, bool)>
    decreases fields,
{
    if fields.len() == 0 {
        Seq::empty()
    } else {
        let last = fields[fields.len() - 1];
        fields_shape(fields.subrange(0, fields.len() - 1)).push(
            (last.0, last.1.name@, kind_of(last.1.ty), last.1.repeated),
        )
    }
}

/// The shape of a schema.
pub open spec fn schema_shape(s: Schema) -> Seq<(u32, Seq<char>, FieldKind, bool)> {
    fields_shape(s.fields@)
}

/// The shape of `fields`, entry by entry.
proof fn lemma_fields_shape(fields: Seq<(u32, Field)>)
    ensures
        fields_shape(fields).len() == fields.len(),
        forall|i: int|
            0 <= i < fields.len() ==> #[trigger] fields_shape(fields)[i] == (
                fields[i].0,
                fields[i].1.name@,
                kind_of(fields[i].1.ty),
                fields[i].1.repeated,
            ),
    decreases fields.len(),
{
    if fields.len() > 0 {
        let prefix = fields.subrange(0, fields.len() - 1);
        lemma_fields_shape(prefix);
        assert forall|i: int| 0 <= i < fields.len() implies #[trigger] fields_shape(fields)[i] == (
            fields[i].0,
            fields[i].1.name@,
            kind_of(fields[i].1.ty),
            fields[i].1.repeated,
        ) by {
            if i < fields.len() - 1 {
                assert(prefix[i] == fields[i]);
            }
        }
    }
}

/// The shape of the user profile stats schema.
pub open spec fn user_profile_stats_shape() -> Seq<(u32, Seq<char>, FieldKind, bool)> {
    seq![
        (1u32, "userId"@, FieldKind::Long, false),
        (2u32, "rank"@, FieldKind::Int, false),
        (3u32, "level"@, FieldKind::Int, false),
    ]
}

/// The user profile stats schema.
fn user_profile_stats_schema() -> (r: Schema)
    ensures
        schema_shape(r) == user_profile_stats_shape(),
{
    let mut fields: Vec<(u32, Field)> = Vec::new();
    fields.push((1, field("userId", ProtoType::Long, false)));
    fields.push((2, field("rank", ProtoType::Int, false)));
    fields.push((3, field("level", ProtoType::Int, false)));
    proof {
        lemma_fields_shape(fields@);
        assert(fields_shape(fields@) =~= user_profile_stats_shape());
    }
    Schema { fields }
}

/// The shape of the user profile schema.
pub open spec fn user_profile_shape() -> Seq<(u32, Seq<char>, FieldKind, bool)> {
    seq![
        (1u32, "userId"@, FieldKind::Long, false),
        (2u32, "uuid"@, FieldKind::Text, false),
        (3u32, "userName"@, FieldKind::Text, false),
        (4u32, "clientVersion"@, FieldKind::Text, false),
        (5u32, "platform"@, FieldKind::Text, false),
    ]
}

/// The user profile schema.
fn user_profile_schema() -> (r: Schema)
    ensures
        schema_shape(r) == user_profile_shape(),
{
    let mut fields: Vec<(u32, Field)> = Vec::new();
    fields.push((1, field("userId", ProtoType::Long, false)));
    fields.push((2, field("uuid", ProtoType::String, false)));
    fields.push((3, field("userName", ProtoType::String, false)));
    fields.push((4, field("clientVersion", ProtoType::String, false)));
    fields.push((5, field("platform", ProtoType::String, false)));
    proof {
        lemma_fields_shape(fields@);
        assert(fields_shape(fields@) =~= user_profile_shape());
    }
    Schema { fields }
}

/// The shape of the user profile response schema.
pub open spec fn user_profile_response_shape() -> Seq<(u32, Seq<char>, FieldKind, bool)> {
    seq![
        (1u32, "profile"@, FieldKind::Message(user_profile_shape()), false),
        (2u32, "stats"@, FieldKind::Message(user_profile_stats_shape()), false),
    ]
}

/// The user profile response schema.
pub fn user_profile_response_schema() -> (r: Schema)
    ensures
        schema_shape(r) == user_profile_response_shape(),
{
    let mut fields: Vec<(u32, Field)> = Vec::new();
    fields.push((1, field("profile", ProtoType::Message(Box::new(user_profile_schema())), false)));
    fields.push((2, field("stats", ProtoType::Message(Box::new(user_profile_stats_schema())), false)));
    proof {
        lemma_fields_shape(fields@);
        assert(fields_shape(fields@) =~= user_profile_response_shape());
    }
    Schema { fields }
}

/// The shape of the user append parameter schema.
pub open spec fn user_append_parameter_shape() -> Seq<(u32, Seq<char>, FieldKind, bool)> {
    seq![
        (1u32, "userId"@, FieldKind::Long, false),
        (2u32, "situationId"@, FieldKind::Int, false),
        (3u32, "performance"@, FieldKind::Int, false),
        (4u32, "technique"@, FieldKind::Int, false),
        (5u32, "visual"@, FieldKind::Int, false),
    ]
}

/// The user append parameter schema.
fn user_append_parameter_schema() -> (r: Schema)
    ensures
        schema_shape(r) == user_append_parameter_shape(),
{
    let mut fields: Vec<(u32, Field)> = Vec::new();
    fields.push((1, field("userId", ProtoType::Long, false)));
    fields.push((2, field("situationId", ProtoType::Int, false)));
    fields.push((3, field("performance", ProtoType::Int, false)));
    fields.push((4, field("technique", ProtoType::Int, false)));
    fields.push((5, field("visual", ProtoType::Int, false)));
    proof {
        lemma_fields_shape(fields@);
        assert(fields_shape(fields@) =~= user_append_parameter_shape());
    }
    Schema { fields }
}

/// The shape of the user situation schema.
pub open spec fn user_situation_shape() -> Seq<(u32, Seq<char>, FieldKind, bool)> {
    seq![
        (1u32, "userId"@, FieldKind::Long, false),
        (2u32, "situationId"@, FieldKind::Int, false),
        (3u32, "level"@, FieldKind::Int, false),
        (4u32, "exp"@, FieldKind::Int, false),
        (7u32, "trainingStatus"@, FieldKind::Text, false),
        (9u32, "illust"@, FieldKind::Text, false),
        (11u32, "skillLevel"@, FieldKind::Int, false),
        (12u32, "userAppendParameter"@, FieldKind::Message(user_append_parameter_shape()), false),
        (13u32, "limitBreakRank"@, FieldKind::Int, false),
    ]
}

/// The user situation schema.
fn user_situation_schema() -> (r: Schema)
    ensures
        schema_shape(r) == user_situation_shape(),
{
    let mut fields: Vec<(u32, Field)> = Vec::new();
    fields.push((1, field("userId", ProtoType::Long, false)));
    fields.push((2, field("situationId", ProtoType::Int, false)));
    fields.push((3, field("level", ProtoType::Int, false)));
    fields.push((4, field("exp", ProtoType::Int, false)));
    fields.push((7, field("trainingStatus", ProtoType::String, false)));
    fields.push((9, field("illust", ProtoType::String, false)));
    fields.push((11, field("skillLevel", ProtoType::Int, false)));
    fields.push((12, field("userAppendParameter", ProtoType::Message(Box::new(user_append_parameter_schema())), false)));
    fields.push((13, field("limitBreakRank", ProtoType::Int, false)));
    proof {
        lemma_fields_shape(fields@);
        assert(fields_shape(fields@) =~= user_situation_shape());
    }
    Schema { fields }
}

/// The shape of the user situation list schema.
pub open spec fn user_situation_list_shape() -> Seq<(u32, Seq<char>, FieldKind, bool)> {
    seq![
        (1u32, "entries"@, FieldKind::Message(user_situation_shape()), true),
    ]
}

/// The user situation list schema.
pub fn user_situation_list_schema() -> (r: Schema)
    ensures
        schema_shape(r) == user_situation_list_shape(),
{
    let mut fields: Vec<(u32, Field)> = Vec::new();
    fields.push((1, field("entries", ProtoType::Message(Box::new(user_situation_schema())), true)));
    proof {
        lemma_fields_shape(fields@);
        assert(fields_shape(fields@) =~= user_situation_list_shape());
    }
    Schema { fields }
}

/// The shape of the user episode schema.
pub open spec fn user_episode_shape() -> Seq<(u32, Seq<char>, FieldKind, bool)> {
    seq![
        (1u32, "userId"@, FieldKind::Long, false),
        (2u32, "episodeId"@, FieldKind::Int, false),
        (3u32, "status"@, FieldKind::Text, false),
    ]
}

/// The user episode schema.
fn user_episode_schema() -> (r: Schema)
    ensures
        schema_shape(r) == user_episode_shape(),
{
    let mut fields: Vec<(u32, Field)> = Vec::new();
    fields.push((1, field("userId", ProtoType::Long, false)));
    fields.push((2, field("episodeId", ProtoType::Int, false)));
    fields.push((3, field("status", ProtoType::String, false)));
    proof {
        lemma_fields_shape(fields@);
        assert(fields_shape(fields@) =~= user_episode_shape());
    }
    Schema { fields }
}

/// The shape of the user episode list schema.
pub open spec fn user_episode_list_shape() -> Seq<(u32, Seq<char>, FieldKind, bool)> {
    seq![
        (1u32, "entries"@, FieldKind::Message(user_episode_shape()), true),
    ]
}

/// The user episode list schema.
pub fn user_episode_list_schema() -> (r: Schema)
    ensures
        schema_shape(r) == user_episode_list_shape(),
{
    let mut fields: Vec<(u32, Field)> = Vec::new();
    fields.push((1, field("entries", ProtoType::Message(Box::new(user_episode_schema())), true)));
    proof {
        lemma_fields_shape(fields@);
        assert(fields_shape(fields@) =~= user_episode_list_shape());
    }
    Schema { fields }
}

/// The shape of the situation append parameter schema.
pub open spec fn situation_append_parameter_shape() -> Seq<(u32, Seq<char>, FieldKind, bool)> {
    seq![
        (1u32, "situationId"@, FieldKind::Int, false),
        (2u32, "level"@, FieldKind::Int, false),
        (3u32, "performance"@, FieldKind::Int, false),
        (4u32, "technique"@, FieldKind::Int, false),
        (5u32, "visual"@, FieldKind::Int, false),
    ]
}

/// The situation append parameter schema.
fn situation_append_parameter_schema() -> (r: Schema)
    ensures
        schema_shape(r) == situation_append_parameter_shape(),
{
    let mut fields: Vec<(u32, Field)> = Vec::new();
    fields.push((1, field("situationId", ProtoType::Int, false)));
    fields.push((2, field("level", ProtoType::Int, false)));
    fields.push((3, field("performance", ProtoType::Int, false)));
    fields.push((4, field("technique", ProtoType::Int, false)));
    fields.push((5, field("visual", ProtoType::Int, false)));
    proof {
        lemma_fields_shape(fields@);
        assert(fields_shape(fields@) =~= situation_append_parameter_shape());
    }
    Schema { fields }
}

/// The shape of the situation level schema.
pub open spec fn situation_level_shape() -> Seq<(u32, Seq<char>, FieldKind, bool)> {
    seq![
        (1u32, "level"@, FieldKind::Int, false),
        (2u32, "appendParameter"@, FieldKind::Message(situation_append_parameter_shape()), false),
    ]
}

/// The situation level schema.
fn situation_level_schema() -> (r: Schema)
    ensures
        schema_shape(r) == situation_level_shape(),
{
    let mut fields: Vec<(u32, Field)> = Vec::new();
    fields.push((1, field("level", ProtoType::Int, false)));
    fields.push((2, field("appendParameter", ProtoType::Message(Box::new(situation_append_parameter_schema())), false)));
    proof {
        lemma_fields_shape(fields@);
        assert(fields_shape(fields@) =~= situation_level_shape());
    }
    Schema { fields }
}

/// The shape of the situation episode reward schema.
pub open spec fn situation_episode_reward_shape() -> Seq<(u32, Seq<char>, FieldKind, bool)> {
    seq![
        (1u32, "rewardId"@, FieldKind::Int, false),
        (2u32, "rewardType"@, FieldKind::Text, false),
        (3u32, "rewardQuantity"@, FieldKind::Int, false),
    ]
}

/// The situation episode reward schema.
fn situation_episode_reward_schema() -> (r: Schema)
    ensures
        schema_shape(r) == situation_episode_reward_shape(),
{
    let mut fields: Vec<(u32, Field)> = Vec::new();
    fields.push((1, field("rewardId", ProtoType::Int, false)));
    fields.push((2, field("rewardType", ProtoType::String, false)));
    fields.push((3, field("rewardQuantity", ProtoType::Int, false)));
    proof {
        lemma_fields_shape(fields@);
        assert(fields_shape(fields@) =~= situation_episode_reward_shape());
    }
    Schema { fields }
}

/// The shape of the situation episode reward list schema.
pub open spec fn situation_episode_reward_list_shape() -> Seq<(u32, Seq<char>, FieldKind, bool)> {
    seq![
        (1u32, "entries"@, FieldKind::Message(situation_episode_reward_shape()), true),
    ]
}

/// The situation episode reward list schema.
fn situation_episode_reward_list_schema() -> (r: Schema)
    ensures
        schema_shape(r) == situation_episode_reward_list_shape(),
{
    let mut fields: Vec<(u32, Field)> = Vec::new();
    fields.push((1, field("entries", ProtoType::Message(Box::new(situation_episode_reward_schema())), true)));
    proof {
        lemma_fields_shape(fields@);
        assert(fields_shape(fields@) =~= situation_episode_reward_list_shape());
    }
    Schema { fields }
}

/// The shape of the situation episode schema.
pub open spec fn situation_episode_shape() -> Seq<(u32, Seq<char>, FieldKind, bool)> {
    seq![
        (1u32, "episodeId"@, FieldKind::Int, false),
        (2u32, "episodeType"@, FieldKind::Text, false),
        (3u32, "episodeNumber"@, FieldKind::Int, false),
        (4u32, "assetBundleName"@, FieldKind::Text, false),
        (5u32, "bonusPerformance"@, FieldKind::Int, false),
        (6u32, "bonusTechnique"@, FieldKind::Int, false),
        (7u32, "bonusVisual"@, FieldKind::Int, false),
        (8u32, "maxLevel"@, FieldKind::Int, false),
        (9u32, "rewards"@, FieldKind::Message(situation_episode_reward_list_shape()), false),
        (10u32, "starRewards"@, FieldKind::Message(situation_episode_reward_list_shape()), false),
    ]
}

/// The situation episode schema.
fn situation_episode_schema() -> (r: Schema)
    ensures
        schema_shape(r) == situation_episode_shape(),
{
    let mut fields: Vec<(u32, Field)> = Vec::new();
    fields.push((1, field("episodeId", ProtoType::Int, false)));
    fields.push((2, field("episodeType", ProtoType::String, false)));
    fields.push((3, field("episodeNumber", ProtoType::Int, false)));
    fields.push((4, field("assetBundleName", ProtoType::String, false)));
    fields.push((5, field("bonusPerformance", ProtoType::Int, false)));
    fields.push((6, field("bonusTechnique", ProtoType::Int, false)));
    fields.push((7, field("bonusVisual", ProtoType::Int, false)));
    fields.push((8, field("maxLevel", ProtoType::Int, false)));
    fields.push((9, field("rewards", ProtoType::Message(Box::new(situation_episode_reward_list_schema())), false)));
    fields.push((10, field("starRewards", ProtoType::Message(Box::new(situation_episode_reward_list_schema())), false)));
    proof {
        lemma_fields_shape(fields@);
        assert(fields_shape(fields@) =~= situation_episode_shape());
    }
    Schema { fields }
}

/// The shape of the situation episode list schema.
pub open spec fn situation_episode_list_shape() -> Seq<(u32, Seq<char>, FieldKind, bool)> {
    seq![
        (1u32, "entries"@, FieldKind::Message(situation_episode_shape()), true),
    ]
}

/// The situation episode list schema.
fn situation_episode_list_schema() -> (r: Schema)
    ensures
        schema_shape(r) == situation_episode_list_shape(),
{
    let mut fields: Vec<(u32, Field)> = Vec::new();
    fields.push((1, field("entries", ProtoType::Message(Box::new(situation_episode_schema())), true)));
    proof {
        lemma_fields_shape(fields@);
        assert(fields_shape(fields@) =~= situation_episode_list_shape());
    }
    Schema { fields }
}

/// The shape of the situation training schema.
pub open spec fn situation_training_shape() -> Seq<(u32, Seq<char>, FieldKind, bool)> {
    seq![
        (1u32, "situationId"@, FieldKind::Int, false),
        (2u32, "characterIndex"@, FieldKind::Int, false),
        (3u32, "level"@, FieldKind::Int, false),
        (4u32, "performance"@, FieldKind::Int, false),
        (5u32, "technique"@, FieldKind::Int, false),
        (6u32, "visual"@, FieldKind::Int, false),
    ]
}

/// The situation training schema.
fn situation_training_schema() -> (r: Schema)
    ensures
        schema_shape(r) == situation_training_shape(),
{
    let mut fields: Vec<(u32, Field)> = Vec::new();
    fields.push((1, field("situationId", ProtoType::Int, false)));
    fields.push((2, field("characterIndex", ProtoType::Int, false)));
    fields.push((3, field("level", ProtoType::Int, false)));
    fields.push((4, field("performance", ProtoType::Int, false)));
    fields.push((5, field("technique", ProtoType::Int, false)));
    fields.push((6, field("visual", ProtoType::Int, false)));
    proof {
        lemma_fields_shape(fields@);
        assert(fields_shape(fields@) =~= situation_training_shape());
    }
    Schema { fields }
}

/// The shape of the situation schema.
pub open spec fn situation_shape() -> Seq<(u32, Seq<char>, FieldKind, bool)> {
    seq![
        (1u32, "situationId"@, FieldKind::Int, false),
        (2u32, "situationType"@, FieldKind::Int, false),
        (3u32, "rarity"@, FieldKind::Int, false),
        (5u32, "attribute"@, FieldKind::Text, false),
        (7u32, "skillId"@, FieldKind::Int, false),
        (8u32, "levels"@, FieldKind::Message(situation_level_shape()), true),
        (10u32, "cardName"@, FieldKind::Text, false),
        (11u32, "maxLevel"@, FieldKind::Int, false),
        (12u32, "resourceName"@, FieldKind::Text, false),
        (13u32, "sdAssetName"@, FieldKind::Text, false),
        (14u32, "episodes"@, FieldKind::Message(situation_episode_list_shape()), false),
        (15u32, "training"@, FieldKind::Message(situation_training_shape()), false),
        (16u32, "characterIndex"@, FieldKind::Int, false),
        (17u32, "releaseAt"@, FieldKind::Long, false),
        (18u32, "skillId2"@, FieldKind::Int, false),
        (19u32, "flag2"@, FieldKind::Int, false),
        (20u32, "illustType"@, FieldKind::Text, false),
        (24u32, "extra"@, FieldKind::Text, false),
        (25u32, "seq"@, FieldKind::Int, false),
    ]
}

/// The situation schema.
fn situation_schema() -> (r: Schema)
    ensures
        schema_shape(r) == situation_shape(),
{
    let mut fields: Vec<(u32, Field)> = Vec::new();
    fields.push((1, field("situationId", ProtoType::Int, false)));
    fields.push((2, field("situationType", ProtoType::Int, false)));
    fields.push((3, field("rarity", ProtoType::Int, false)));
    fields.push((5, field("attribute", ProtoType::String, false)));
    fields.push((7, field("skillId", ProtoType::Int, false)));
    fields.push((8, field("levels", ProtoType::Message(Box::new(situation_level_schema())), true)));
    fields.push((10, field("cardName", ProtoType::String, false)));
    fields.push((11, field("maxLevel", ProtoType::Int, false)));
    fields.push((12, field("resourceName", ProtoType::String, false)));
    fields.push((13, field("sdAssetName", ProtoType::String, false)));
    fields.push((14, field("episodes", ProtoType::Message(Box::new(situation_episode_list_schema())), false)));
    fields.push((15, field("training", ProtoType::Message(Box::new(situation_training_schema())), false)));
    fields.push((16, field("characterIndex", ProtoType::Int, false)));
    fields.push((17, field("releaseAt", ProtoType::Long, false)));
    fields.push((18, field("skillId2", ProtoType::Int, false)));
    fields.push((19, field("flag2", ProtoType::Int, false)));
    fields.push((20, field("illustType", ProtoType::String, false)));
    fields.push((24, field("extra", ProtoType::String, false)));
    fields.push((25, field("seq", ProtoType::Int, false)));
    proof {
        lemma_fields_shape(fields@);
        assert(fields_shape(fields@) =~= situation_shape());
    }
    Schema { fields }
}

/// The shape of the situation list schema.
pub open spec fn situation_list_shape() -> Seq<(u32, Seq<char>, FieldKind, bool)> {
    seq![
        (1u32, "entries"@, FieldKind::Message(situation_shape()), true),
    ]
}

/// The situation list schema.
pub fn situation_list_schema() -> (r: Schema)
    ensures
        schema_shape(r) == situation_list_shape(),
{
    let mut fields: Vec<(u32, Field)> = Vec::new();
    fields.push((1, field("entries", ProtoType::Message(Box::new(situation_schema())), true)));
    proof {
        lemma_fields_shape(fields@);
        assert(fields_shape(fields@) =~= situation_list_shape());
    }
    Schema { fields }
}

/// The shape of the user area item schema.
pub open spec fn user_area_item_shape() -> Seq<(u32, Seq<char>, FieldKind, bool)> {
    seq![
        (1u32, "userId"@, FieldKind::Long, false),
        (2u32, "areaItemId"@, FieldKind::Int, false),
        (3u32, "areaItemCategory"@, FieldKind::Int, false),
        (4u32, "level"@, FieldKind::Int, false),
    ]
}

/// The user area item schema.
fn user_area_item_schema() -> (r: Schema)
    ensures
        schema_shape(r) == user_area_item_shape(),
{
    let mut fields: Vec<(u32, Field)> = Vec::new();
    fields.push((1, field("userId", ProtoType::Long, false)));
    fields.push((2, field("areaItemId", ProtoType::Int, false)));
    fields.push((3, field("areaItemCategory", ProtoType::Int, false)));
    fields.push((4, field("level", ProtoType::Int, false)));
    proof {
        lemma_fields_shape(fields@);
        assert(fields_shape(fields@) =~= user_area_item_shape());
    }
    Schema { fields }
}

/// The shape of the user area item map entry schema.
pub open spec fn user_area_item_map_entry_shape() -> Seq<(u32, Seq<char>, FieldKind, bool)> {
    seq![
        (1u32, "key"@, FieldKind::Int, false),
        (2u32, "value"@, FieldKind::Message(user_area_item_shape()), false),
    ]
}

/// The user area item map entry schema.
fn user_area_item_map_entry_schema() -> (r: Schema)
    ensures
        schema_shape(r) == user_area_item_map_entry_shape(),
{
    let mut fields: Vec<(u32, Field)> = Vec::new();
    fields.push((1, field("key", ProtoType::Int, false)));
    fields.push((2, field("value", ProtoType::Message(Box::new(user_area_item_schema())), false)));
    proof {
        lemma_fields_shape(fields@);
        assert(fields_shape(fields@) =~= user_area_item_map_entry_shape());
    }
    Schema { fields }
}

/// The shape of the user area item map schema.
pub open spec fn user_area_item_map_shape() -> Seq<(u32, Seq<char>, FieldKind, bool)> {
    seq![
        (1u32, "entries"@, FieldKind::Message(user_area_item_map_entry_shape()), true),
    ]
}

/// The user area item map schema.
fn user_area_item_map_schema() -> (r: Schema)
    ensures
        schema_shape(r) == user_area_item_map_shape(),
{
    let mut fields: Vec<(u32, Field)> = Vec::new();
    fields.push((1, field("entries", ProtoType::Message(Box::new(user_area_item_map_entry_schema())), true)));
    proof {
        lemma_fields_shape(fields@);
        assert(fields_shape(fields@) =~= user_area_item_map_shape());
    }
    Schema { fields }
}

/// The shape of the user character potential level schema.
pub open spec fn user_character_potential_level_shape() -> Seq<(u32, Seq<char>, FieldKind, bool)> {
    seq![
        (1u32, "performanceLevel"@, FieldKind::Int, false),
        (2u32, "techniqueLevel"@, FieldKind::Int, false),
        (3u32, "visualLevel"@, FieldKind::Int, false),
    ]
}

/// The user character potential level schema.
fn user_character_potential_level_schema() -> (r: Schema)
    ensures
        schema_shape(r) == user_character_potential_level_shape(),
{
    let mut fields: Vec<(u32, Field)> = Vec::new();
    fields.push((1, field("performanceLevel", ProtoType::Int, false)));
    fields.push((2, field("techniqueLevel", ProtoType::Int, false)));
    fields.push((3, field("visualLevel", ProtoType::Int, false)));
    proof {
        lemma_fields_shape(fields@);
        assert(fields_shape(fields@) =~= user_character_potential_level_shape());
    }
    Schema { fields }
}

/// The shape of the user character potential level map entry schema.
pub open spec fn user_character_potential_level_map_entry_shape() -> Seq<(u32, Seq<char>, FieldKind, bool)> {
    seq![
        (1u32, "key"@, FieldKind::Int, false),
        (2u32, "value"@, FieldKind::Message(user_character_potential_level_shape()), false),
    ]
}

/// The user character potential level map entry schema.
fn user_character_potential_level_map_entry_schema() -> (r: Schema)
    ensures
        schema_shape(r) == user_character_potential_level_map_entry_shape(),
{
    let mut fields: Vec<(u32, Field)> = Vec::new();
    fields.push((1, field("key", ProtoType::Int, false)));
    fields.push((2, field("value", ProtoType::Message(Box::new(user_character_potential_level_schema())), false)));
    proof {
        lemma_fields_shape(fields@);
        assert(fields_shape(fields@) =~= user_character_potential_level_map_entry_shape());
    }
    Schema { fields }
}

/// The shape of the user character potential level map schema.
pub open spec fn user_character_potential_level_map_shape() -> Seq<(u32, Seq<char>, FieldKind, bool)> {
    seq![
        (1u32, "entries"@, FieldKind::Message(user_character_potential_level_map_entry_shape()), true),
    ]
}

/// The user character potential level map schema.
fn user_character_potential_level_map_schema() -> (r: Schema)
    ensures
        schema_shape(r) == user_character_potential_level_map_shape(),
{
    let mut fields: Vec<(u32, Field)> = Vec::new();
    fields.push((1, field("entries", ProtoType::Message(Box::new(user_character_potential_level_map_entry_schema())), true)));
    proof {
        lemma_fields_shape(fields@);
        assert(fields_shape(fields@) =~= user_character_potential_level_map_shape());
    }
    Schema { fields }
}

/// The shape of the suite user response schema.
pub open spec fn suite_user_response_shape() -> Seq<(u32, Seq<char>, FieldKind, bool)> {
    seq![
        (22u32, "userAreaItemMap"@, FieldKind::Message(user_area_item_map_shape()), false),
        (401u32, "userCharacterPotentialLevelMap"@, FieldKind::Message(user_character_potential_level_map_shape()), false),
    ]
}

/// The suite user response schema.
pub fn suite_user_response_schema() -> (r: Schema)
    ensures
        schema_shape(r) == suite_user_response_shape(),
{
    let mut fields: Vec<(u32, Field)> = Vec::new();
    fields.push((22, field("userAreaItemMap", ProtoType::Message(Box::new(user_area_item_map_schema())), false)));
    fields.push((401, field("userCharacterPotentialLevelMap", ProtoType::Message(Box::new(user_character_potential_level_map_schema())), false)));
    proof {
        lemma_fields_shape(fields@);
        assert(fields_shape(fields@) =~= suite_user_response_shape());
    }
    Schema { fields }
}

} // verus!
