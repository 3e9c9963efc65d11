//! The names of the messages that client and server exchange.
//!
//! Every message is an object with a `type` field, which holds one of these names. `C_` names are sent by the client,
//! `S_` names by the server. The names are grouped by a prefix for what they are about.

use vstd::prelude::*;

verus! {

/// Raised whenever the messages change incompatibly. A client that declares another version is refused.
pub const PROTOCOL_VERSION: u32 = 1;

/// First frame; carries protocol_version.
pub const S_AUTH_REQUIRED: &'static str = "auth_required";

/// Login/register succeeded (carries token + name).
pub const S_AUTH_OK: &'static str = "auth_ok";

/// Login/register failed (carries message).
pub const S_AUTH_ERROR: &'static str = "auth_error";

/// Identity assigned, world join begins.
pub const S_WELCOME: &'static str = "welcome";

/// `{email, password, name}`.
pub const C_REGISTER: &'static str = "register";

/// `{email, password}`.
pub const C_LOGIN: &'static str = "login";

/// `{token}`: resume a session.
pub const C_TOKEN: &'static str = "token";

/// Ephemeral, non-persisted character.
pub const C_GUEST: &'static str = "guest";

/// `{node_id}`.
pub const C_GATHER_START: &'static str = "gather.start";

/// `{node_id, pct}`.
pub const S_GATHER_PROGRESS: &'static str = "gather.progress";

/// `{item_id, qty}`.
pub const S_GATHER_RESULT: &'static str = "gather.result";

/// `{node_id}`.
pub const S_NODE_DEPLETED: &'static str = "node.depleted";

/// `{node_id}`.
pub const S_NODE_RESPAWN: &'static str = "node.respawn";

/// `{items}`.
pub const S_INV_UPDATE: &'static str = "inv.update";

/// `{from, to}`.
pub const C_INV_MOVE: &'static str = "inv.move";

/// `{item_id, qty}`.
pub const C_STORE_DEPOSIT: &'static str = "store.deposit";

/// `{item_id, qty}`.
pub const C_STORE_WITHDRAW: &'static str = "store.withdraw";

/// Open orders for the district.
pub const C_BUILD_LIST: &'static str = "build.list";

/// `{order_id, item_id, qty}`.
pub const C_BUILD_CONTRIBUTE: &'static str = "build.contribute";

/// `{order_id, progress}`.
pub const S_BUILD_PROGRESS: &'static str = "build.progress";

/// `{order_id, structures}`.
pub const S_BUILD_COMPLETED: &'static str = "build.completed";

/// `{order_ids}`.
pub const S_BUILD_UNLOCKED: &'static str = "build.unlocked";

/// `{kind, x, y, rot}`.
pub const C_BUILD_PLACE: &'static str = "build.place";

/// `{structure}`.
pub const S_BUILD_PLACED: &'static str = "build.placed";

/// `{plot_id, district, bounds, tier, just_claimed}`.
pub const S_PLOT_ASSIGNED: &'static str = "plot.assigned";

/// Current plot details.
pub const C_PLOT_INFO: &'static str = "plot.info";

/// `{skill_id, xp, level}`.
pub const S_SKILL_UPDATE: &'static str = "skill.update";

/// `{skill_id, level}`.
pub const S_SKILL_LEVELUP: &'static str = "skill.levelup";

/// `{bed_id}`.
pub const C_HOME_SET_RESPAWN: &'static str = "home.set_respawn";

/// `{bed_id}`: ack once the bed is validated as the caller's own.
pub const S_HOME_RESPAWN_SET: &'static str = "home.respawn_set";

/// Available recipes.
pub const C_CRAFT_LIST: &'static str = "craft.list";

/// `{recipes: [{id, name, inputs, output_item, output_qty}]}`.
pub const S_CRAFT_RECIPES: &'static str = "craft.recipes";

/// `{recipe_id}`.
pub const C_CRAFT_MAKE: &'static str = "craft.make";

/// `{recipe_id, item_id, qty}`: feedback once craft.make succeeds.
pub const S_CRAFT_MADE: &'static str = "craft.made";

/// The authored heightmap grid.
pub const C_TERRAIN_LIST: &'static str = "terrain.list";

/// `{resolution, world_size, heights}`: the height at every corner of a coarse grid.
pub const S_TERRAIN_DATA: &'static str = "terrain.data";

/// `{tx, ty}`.
pub const C_TERRAIN_TILE_REQUEST: &'static str = "terrain.tile_request";

/// `{tx, ty, side, encoding: "tile_v1", data_b64}`.
pub const S_TERRAIN_TILE_DATA: &'static str = "terrain.tile_data";

/// `{tx, ty}`.
pub const C_TERRAIN_DELTA_REQUEST: &'static str = "terrain.delta_request";

/// `{tx, ty, has_delta, revision?, encoding?: "delta_v1", data_b64?}`.
pub const S_TERRAIN_DELTA_DATA: &'static str = "terrain.delta_data";

/// `{brush, cells: [[cx, cy, d_cm], ...]}`: one editor brush stroke.
pub const C_TERRAIN_EDIT_OP: &'static str = "terrain.edit_op";

/// `{message}`: the op was rejected (not an editor / out of bounds / over the per-corner offset cap / malformed).
pub const S_TERRAIN_EDIT_ERROR: &'static str = "terrain.edit_error";

/// `{tx, ty, revision, encoding: "delta_v1", data_b64}`: pushed to every connected client after an accepted edit op, once per chunk the op touched.
pub const S_TERRAIN_DELTA_PATCH: &'static str = "terrain.delta_patch";

/// `{op_id, brush}`.
pub const S_TERRAIN_EDIT_ACK: &'static str = "terrain.edit_ack";

/// `{op_id}`.
pub const C_TERRAIN_REVERT_OP: &'static str = "terrain.revert_op";

/// `{op_id}`: the revert was applied (patches follow separately).
pub const S_TERRAIN_REVERT_ACK: &'static str = "terrain.revert_ack";

/// `{}`: ask for every placed object.
pub const C_OBJECT_LIST: &'static str = "object.list";

/// `{objects: [{id, kind, x, y}, ...]}`.
pub const S_OBJECT_LIST: &'static str = "object.list";

/// `{kind, x, y}`: place one object.
pub const C_OBJECT_PLACE: &'static str = "object.place";

/// `{object_id}`: delete one placed object.
pub const C_OBJECT_DELETE: &'static str = "object.delete";

/// `{id, kind, x, y}`.
pub const S_OBJECT_PLACED: &'static str = "object.placed";

/// `{id}`.
pub const S_OBJECT_REMOVED: &'static str = "object.removed";

/// `{message}`: the place/delete was rejected (not an editor / unknown kind / out of bounds / no such object / no database).
pub const S_OBJECT_EDIT_ERROR: &'static str = "object.edit_error";

/// `{plot_id, due_at, paid_through, state, auto_pay, gold}`.
pub const S_RENT_STATUS: &'static str = "rent.status";

/// `{plot_id}`.
pub const C_RENT_PAY: &'static str = "rent.pay";

/// `{plot_id, due_at}`.
pub const S_RENT_WARNING: &'static str = "rent.warning";

/// `{plot_id, moved_to_storage}`.
pub const S_RENT_RECLAIMED: &'static str = "rent.reclaimed";

/// `{plot_id, enabled}`: opt-in; off by default.
pub const C_RENT_SET_AUTOPAY: &'static str = "rent.set_autopay";

/// `{gold, delta, reason}`: the character's authoritative gold balance after it changed, plus what moved and why.
pub const S_GOLD_UPDATE: &'static str = "gold.update";

/// `{}`: ask to trade at whatever market you're standing next to.
pub const C_MARKET_OPEN: &'static str = "market.open";

/// `{market_id, x, y}`: you're at a built market and may trade.
pub const S_MARKET_OPENED: &'static str = "market.opened";

/// `{code, detail}`: a market command was refused ("out_of_range", "warehouse_full", ...).
pub const S_MARKET_ERROR: &'static str = "market.error";

/// `{item_id, qty}`: move goods between carried inventory and your warehouse at the market you're standing at.
pub const C_WAREHOUSE_DEPOSIT: &'static str = "warehouse.deposit";

/// `{item_id, qty}`.
pub const C_WAREHOUSE_WITHDRAW: &'static str = "warehouse.withdraw";

/// `{market_id, items: [{id, item_id, qty, state, durability?, max_durability?}], used, slots}`: your full warehouse at one market, pushed on market.open and after every deposit/withdraw.
pub const S_WAREHOUSE_STATE: &'static str = "warehouse.state";

/// `{command_id, item_id, unit_price, qty}`: rest a sell order.
pub const C_MARKET_SELL: &'static str = "market.sell";

/// `{command_id, item_id, unit_price, qty}`: buy against the book.
pub const C_MARKET_BUY: &'static str = "market.buy";

/// `{command_id, order_id}`: cancel your own resting order; unsold escrow returns to available.
pub const C_MARKET_CANCEL: &'static str = "market.cancel";

/// `{item_id}`: ask for one commodity's depth without waiting for a change.
pub const C_MARKET_BOOK_REQUEST: &'static str = "market.book_request";

/// `{market_id, item_id, asks: [{price, qty}], bids: [...]}`: depth aggregated by price level.
pub const S_MARKET_BOOK: &'static str = "market.book";

/// `{market_id, orders: [{order_id, side, item_id, unit_price, qty_total, qty_remaining}]}`: your own resting orders only, pushed on market.open and after any change to them.
pub const S_MARKET_ORDERS: &'static str = "market.orders";

/// `{market_id, item_id, unit_price, qty}`: a fill just happened; the ticker.
pub const S_MARKET_TRADE: &'static str = "market.trade";

/// `{market_id, listing_fee, sale_tax}`: what the house just took from your command.
pub const S_MARKET_FEES: &'static str = "market.fees";

/// `{from, to}`.
pub const C_DISTRICT_ENTER: &'static str = "district.enter";

/// Zone loaded; resume control.
pub const S_DISTRICT_READY: &'static str = "district.ready";

/// `{district, kind, structure_kind, required_json, x, y, x1?, y1?}`.
pub const C_MAYOR_BUILD_CREATE: &'static str = "mayor.build_create";

/// `{message}`: rejected (not mayor / not on city land).
pub const S_MAYOR_BUILD_ERROR: &'static str = "mayor.build_error";

/// `{points: [[x, y], ...]}`.
pub const C_ROAD_PLAN: &'static str = "road.plan";

/// `{order_id}`.
pub const S_ROAD_PLANNED: &'static str = "road.planned";

/// `{message}`.
pub const S_ROAD_PLAN_ERROR: &'static str = "road.plan_error";

/// `{order_id, points}`.
pub const C_ROAD_REPLAN: &'static str = "road.replan";

/// `{order_id}`: remove a pristine (open, zero-progress) road plan.
pub const C_ROAD_CANCEL: &'static str = "road.cancel";

/// `{order_id}`.
pub const S_ROAD_CANCELLED: &'static str = "road.cancelled";

/// `{order_id}`.
pub const C_ROAD_DEMOLISH: &'static str = "road.demolish";

/// `{order_id, demo_order_id}`.
pub const S_ROAD_DEMOLITION_PLANNED: &'static str = "road.demolition_planned";

/// `{order_id, cell_index, required, progress, completed}`.
pub const S_ROAD_CELL_PROGRESS: &'static str = "road.cell_progress";

/// `{order_id}`: ask for a road order's full cell list: a stateless read, same as terrain.list/object.list.
pub const C_ROAD_CELLS_REQUEST: &'static str = "road.cells_request";

/// `{order_id, cells: [{cell_index, x0, y0, x1, y1, required, progress, completed}]}`: a road order's full cell geometry + state, in path order.
pub const S_ROAD_CELLS: &'static str = "road.cells";

} // verus!
