//! A verified core of the Boon browser platform.
pub mod abi;
pub mod action_laws;
pub mod actions;
pub mod builtins;
pub mod call_laws;
pub mod cell_laws;
pub mod cells;
pub mod chain_laws;
pub mod compound_laws;
pub mod contexts;
pub mod depth_laws;
pub mod derived;
pub mod evaluation;
pub mod evaluation_laws;
pub mod evaluation_parts;
pub mod evaluation_state;
pub mod evaluator;
pub mod event_laws;
pub mod expression_clone;
pub mod expression_view;
pub mod fields;
pub mod flow_laws;
pub mod identity_laws;
pub mod ids;
pub mod interpreter;
pub mod matching;
pub mod modules;
pub mod name_laws;
pub mod object_laws;
pub mod parts;
pub mod pipe_laws;
pub mod plan;
pub mod plan_clone;
pub mod plan_growth;
pub mod plan_view;
pub mod program;
pub mod program_laws;
pub mod reaction_laws;
pub mod reactions;
pub mod render;
pub mod render_laws;
pub mod runtime;
pub mod runtime_laws;
pub mod scene;
pub mod scope;
pub mod semantic_clone;
pub mod semantic_ir;
pub mod semantic_view;
pub mod slot_laws;
pub mod stage_laws;
pub mod static_expression;
pub mod status_laws;
pub mod stream_laws;
pub mod streams;
pub mod text;
pub mod text_map;
pub mod update_laws;
pub mod value;
pub mod value_laws;
pub mod values;
