use vstd::prelude::*;

verus! {

/// Size of the grid and the item limit of a tile.
pub struct Config {
    pub gamefield_width: usize,
    pub gamefield_height: usize,
    pub maximum_items_on_ground: isize,
}

impl Config {
    /// Create a configuration from its three parameters.
    pub fn new(gamefield_width: usize, gamefield_height: usize, maximum_items_on_ground: isize) -> (r:
        Config)
        ensures
            r.gamefield_width == gamefield_width,
            r.gamefield_height == gamefield_height,
            r.maximum_items_on_ground == maximum_items_on_ground,
    {
        Config { gamefield_width, gamefield_height, maximum_items_on_ground }
    }

    /// A 10 by 10 grid with at most 8 items on a tile.
    pub fn default() -> (r: Config)
        ensures
            r.gamefield_width == 10,
            r.gamefield_height == 10,
            r.maximum_items_on_ground == 8,
    {
        Config { gamefield_width: 10, gamefield_height: 10, maximum_items_on_ground: 8 }
    }
}

/// Orientation of the robot.
#[derive(Clone, Copy, Debug, PartialEq, Eq, Structural)]
pub enum Direction {
    North,
    South,
    East,
    West,
}

/// Actions the robot can perform.
#[derive(Clone, Copy, Debug, PartialEq, Eq, Structural)]
pub enum Action {
    /// Step one tile forward.
    Move,
    /// Put one item on the current tile.
    PlaceItem,
    /// Pick one item up from the current tile.
    RemoveItem,
    /// Rotate counter-clockwise.
    TurnLeft,
}

/// Questions the robot can answer about its surroundings.
#[derive(Clone, Copy, Debug, PartialEq, Eq, Structural)]
pub enum Query {
    /// Is the tile ahead a wall?
    WallInFrontOfMe,
    /// Is there at least one item on the current tile?
    ItemHere,
    /// Is the robot facing this direction?
    Direction(Direction),
}

/// Failures of an action.
#[derive(Clone, Copy, Debug, PartialEq, Eq, Structural)]
pub enum ActionError {
    /// The tile ahead is a wall.
    MoveWall,
    /// The tile ahead lies outside the grid.
    MoveOutOfBounds,
    /// The current tile already holds the maximum number of items.
    ExceedItemLimit,
    /// The current tile holds no item.
    NoItemHere,
}

/// Failures of a query or of a grid access.
#[derive(Clone, Copy, Debug, PartialEq, Eq, Structural)]
pub enum QueryError {
    /// The coordinate asked about lies outside the grid.
    OutOfBounds,
}

/// Failures of building or removing a wall.
#[derive(Clone, Copy, Debug, PartialEq, Eq, Structural)]
pub enum ToggleWallError {
    /// The tile holds items.
    ItemOnGround,
    /// The robot stands on the tile.
    KarelIsHere,
    /// The tile lies outside the grid.
    OutOfBounds,
}

impl ActionError {
    /// A sentence that describes the error.
    pub fn message(&self) -> (r: String)
        ensures
            r@ == match self {
                ActionError::MoveWall => "Karel was ordered to run into a wall. Karel will terminate."@,
                ActionError::MoveOutOfBounds => "Karel was ordered to run out of the map. Karel will terminate."@,
                ActionError::ExceedItemLimit => "Karel exceeded item limit while placing an item. Karel will terminate."@,
                ActionError::NoItemHere => "Karel tried to pick up item, but there was none there. Karel will terminate."@,
            },
    {
        match self {
            ActionError::MoveWall => String::from_str(
                "Karel was ordered to run into a wall. Karel will terminate.",
            ),
            ActionError::MoveOutOfBounds => String::from_str(
                "Karel was ordered to run out of the map. Karel will terminate.",
            ),
            ActionError::ExceedItemLimit => String::from_str(
                "Karel exceeded item limit while placing an item. Karel will terminate.",
            ),
            ActionError::NoItemHere => String::from_str(
                "Karel tried to pick up item, but there was none there. Karel will terminate.",
            ),
        }
    }
}

impl QueryError {
    /// A sentence that describes the error.
    pub fn message(&self) -> (r: String)
        ensures
            r@ == "Karel tried to look forward if there is a wall, but there was end of map. Karel will terminate."@,
    {
        String::from_str(
            "Karel tried to look forward if there is a wall, but there was end of map. Karel will terminate.",
        )
    }
}

/// Enums whose values can be compared by variant alone, ignoring any payload.
pub trait VariantEq {
    /// The position of the value's variant in its enum.
    spec fn variant(&self) -> nat;

    fn variant_eq(&self, other: &Self) -> (r: bool)
        ensures
            r == (self.variant() == other.variant()),
    ;
}

impl VariantEq for Direction {
    open spec fn variant(&self) -> nat {
        match self {
            Direction::North => 0,
            Direction::South => 1,
            Direction::East => 2,
            Direction::West => 3,
        }
    }

    fn variant_eq(&self, other: &Self) -> (r: bool) {
        *self == *other
    }
}

impl VariantEq for Action {
    open spec fn variant(&self) -> nat {
        match self {
            Action::Move => 0,
            Action::PlaceItem => 1,
            Action::RemoveItem => 2,
            Action::TurnLeft => 3,
        }
    }

    fn variant_eq(&self, other: &Self) -> (r: bool) {
        *self == *other
    }
}

impl VariantEq for Query {
    open spec fn variant(&self) -> nat {
        match self {
            Query::WallInFrontOfMe => 0,
            Query::ItemHere => 1,
            Query::Direction(_) => 2,
        }
    }

    fn variant_eq(&self, other: &Self) -> (r: bool) {
        match (self, other) {
            (Query::WallInFrontOfMe, Query::WallInFrontOfMe) => true,
            (Query::ItemHere, Query::ItemHere) => true,
            (Query::Direction(_), Query::Direction(_)) => true,
            _ => false,
        }
    }
}

impl VariantEq for ActionError {
    open spec fn variant(&self) -> nat {
        match self {
            ActionError::MoveWall => 0,
            ActionError::MoveOutOfBounds => 1,
            ActionError::ExceedItemLimit => 2,
            ActionError::NoItemHere => 3,
        }
    }

    fn variant_eq(&self, other: &Self) -> (r: bool) {
        *self == *other
    }
}

impl VariantEq for QueryError {
    open spec fn variant(&self) -> nat {
        0
    }

    fn variant_eq(&self, other: &Self) -> (r: bool) {
        true
    }
}

impl VariantEq for ToggleWallError {
    open spec fn variant(&self) -> nat {
        match self {
            ToggleWallError::ItemOnGround => 0,
            ToggleWallError::KarelIsHere => 1,
            ToggleWallError::OutOfBounds => 2,
        }
    }

    fn variant_eq(&self, other: &Self) -> (r: bool) {
        *self == *other
    }
}

/// True when the two values are of the same variant, whatever their payloads.
pub fn enum_variant_eq<T: VariantEq>(a: &T, b: &T) -> (r: bool)
    ensures
        r == (a.variant() == b.variant()),
{
    a.variant_eq(b)
}

/// The world as the contracts see it: the grid in row-major order (`height`
/// cells per row), the robot's pose and the configuration.
pub struct WorldView {
    pub grid: Seq<isize>,
    pub position: (usize, usize),
    pub orientation: Direction,
    pub width: usize,
    pub height: usize,
    pub max_items: isize,
}

pub open spec fn in_bounds(w: WorldView, c: (usize, usize)) -> bool {
    c.0 < w.width && c.1 < w.height
}

/// Where a coordinate lies in the flat grid.
pub open spec fn cell_index(w: WorldView, c: (usize, usize)) -> int {
    w.height * c.0 + c.1
}

pub open spec fn cell(w: WorldView, c: (usize, usize)) -> isize {
    w.grid[cell_index(w, c)]
}

/// A well-formed world: the grid has one cell per coordinate and the robot is on it.
pub open spec fn world_wf(w: WorldView) -> bool {
    &&& w.grid.len() == w.width * w.height
    &&& in_bounds(w, w.position)
}

pub open spec fn get_spec(w: WorldView, c: (usize, usize)) -> Result<isize, QueryError> {
    if in_bounds(w, c) {
        Ok(cell(w, c))
    } else {
        Err(QueryError::OutOfBounds)
    }
}

pub open spec fn set_spec(w: WorldView, c: (usize, usize), value: isize) -> WorldView {
    if in_bounds(w, c) {
        WorldView { grid: w.grid.update(cell_index(w, c), value), ..w }
    } else {
        w
    }
}

/// The tile one step ahead, or `None` where that step leaves the grid.
pub open spec fn ahead(w: WorldView) -> Option<(usize, usize)> {
    let (r, c) = w.position;
    match w.orientation {
        Direction::North => if c == 0 {
            None
        } else {
            Some((r, (c - 1) as usize))
        },
        Direction::South => if c + 1 < w.height {
            Some((r, (c + 1) as usize))
        } else {
            None
        },
        Direction::West => if r + 1 < w.width {
            Some(((r + 1) as usize, c))
        } else {
            None
        },
        Direction::East => if r == 0 {
            None
        } else {
            Some(((r - 1) as usize, c))
        },
    }
}

pub open spec fn turned_left(d: Direction) -> Direction {
    match d {
        Direction::North => Direction::West,
        Direction::West => Direction::South,
        Direction::South => Direction::East,
        Direction::East => Direction::North,
    }
}

pub open spec fn toggle_spec(w: WorldView, c: (usize, usize)) -> (WorldView, Result<
    (),
    ToggleWallError,
>) {
    if !in_bounds(w, c) {
        (w, Err(ToggleWallError::OutOfBounds))
    } else if cell(w, c) > 0 {
        (w, Err(ToggleWallError::ItemOnGround))
    } else if w.position == c {
        (w, Err(ToggleWallError::KarelIsHere))
    } else if cell(w, c) == -1 {
        (set_spec(w, c, 0), Ok(()))
    } else {
        (set_spec(w, c, -1isize), Ok(()))
    }
}

pub open spec fn query_spec(w: WorldView, q: Query) -> Result<bool, QueryError> {
    match q {
        Query::Direction(d) => Ok(d == w.orientation),
        Query::ItemHere => Ok(cell(w, w.position) > 0),
        Query::WallInFrontOfMe => match ahead(w) {
            Some(c) => Ok(cell(w, c) == -1),
            None => Err(QueryError::OutOfBounds),
        },
    }
}

pub open spec fn action_spec(w: WorldView, a: Action) -> (WorldView, Result<(), ActionError>) {
    match a {
        Action::Move => match ahead(w) {
            None => (w, Err(ActionError::MoveOutOfBounds)),
            Some(c) => if cell(w, c) == -1 {
                (w, Err(ActionError::MoveWall))
            } else {
                (WorldView { position: c, ..w }, Ok(()))
            },
        },
        Action::PlaceItem => {
            let n = cell(w, w.position);
            if n >= w.max_items {
                (w, Err(ActionError::ExceedItemLimit))
            } else {
                (set_spec(w, w.position, (n + 1) as isize), Ok(()))
            }
        },
        Action::RemoveItem => {
            let n = cell(w, w.position);
            if n <= 0 {
                (w, Err(ActionError::NoItemHere))
            } else {
                (set_spec(w, w.position, (n - 1) as isize), Ok(()))
            }
        },
        Action::TurnLeft => (WorldView { orientation: turned_left(w.orientation), ..w }, Ok(())),
    }
}

proof fn lemma_index_bound(w: usize, h: usize, r: usize, c: usize)
    requires
        r < w,
        c < h,
    ensures
        0 <= h * r + c < w * h,
{
    assert(h * r + c < w * h) by (nonlinear_arith)
        requires
            r < w,
            c < h,
    ;
    assert(0 <= h * r) by (nonlinear_arith);
}

/// Storing a value on a tile inside the grid and reading the tile back gives that
/// value; outside the grid both reading and storing fail and nothing changes.
pub proof fn lemma_set_then_get(w: WorldView, c: (usize, usize), value: isize)
    requires
        world_wf(w),
    ensures
        in_bounds(w, c) ==> get_spec(set_spec(w, c, value), c) == Ok::<isize, QueryError>(value),
        !in_bounds(w, c) ==> get_spec(w, c) == Err::<isize, QueryError>(QueryError::OutOfBounds),
        !in_bounds(w, c) ==> set_spec(w, c, value) == w,
{
    if in_bounds(w, c) {
        lemma_index_bound(w.width, w.height, c.0, c.1);
    }
}

/// Turning left four times brings the robot back to its orientation, through
/// North, West, South and East in that order; nothing else changes.
pub proof fn lemma_turn_left_four(w: WorldView)
    ensures
        turned_left(Direction::North) == Direction::West,
        turned_left(Direction::West) == Direction::South,
        turned_left(Direction::South) == Direction::East,
        turned_left(Direction::East) == Direction::North,
        action_spec(
            action_spec(
                action_spec(action_spec(w, Action::TurnLeft).0, Action::TurnLeft).0,
                Action::TurnLeft,
            ).0,
            Action::TurnLeft,
        ).0 == w,
{
}

/// On an empty tile or a wall, away from the robot, toggling the wall twice
/// restores the world.
pub proof fn lemma_toggle_twice(w: WorldView, c: (usize, usize))
    requires
        world_wf(w),
        in_bounds(w, c),
        cell(w, c) == 0 || cell(w, c) == -1,
        w.position != c,
    ensures
        toggle_spec(w, c).1 == Ok::<(), ToggleWallError>(()),
        toggle_spec(toggle_spec(w, c).0, c) == (w, Ok::<(), ToggleWallError>(())),
{
    lemma_index_bound(w.width, w.height, c.0, c.1);
    let w1 = toggle_spec(w, c).0;
    let w2 = toggle_spec(w1, c).0;
    assert(w2.grid =~= w.grid);
}

/// The world after placing an item on the robot's tile `k` times in a row.
pub open spec fn placed(w: WorldView, k: nat) -> WorldView
    decreases k,
{
    if k == 0 {
        w
    } else {
        action_spec(placed(w, (k - 1) as nat), Action::PlaceItem).0
    }
}

/// From an empty tile, placing an item succeeds while fewer than the maximum lie
/// there, each time adding one; once the maximum lies there it fails with
/// `ExceedItemLimit`.
pub proof fn lemma_place_until_limit(w: WorldView, k: nat)
    requires
        world_wf(w),
        cell(w, w.position) == 0,
        k <= w.max_items,
    ensures
        world_wf(placed(w, k)),
        placed(w, k).position == w.position,
        placed(w, k).max_items == w.max_items,
        placed(w, k).width == w.width,
        placed(w, k).height == w.height,
        cell(placed(w, k), w.position) == k,
        k < w.max_items ==> action_spec(placed(w, k), Action::PlaceItem).1 == Ok::<
            (),
            ActionError,
        >(()),
        k == w.max_items ==> action_spec(placed(w, k), Action::PlaceItem).1 == Err::<
            (),
            ActionError,
        >(ActionError::ExceedItemLimit),
    decreases k,
{
    lemma_index_bound(w.width, w.height, w.position.0, w.position.1);
    if k > 0 {
        lemma_place_until_limit(w, (k - 1) as nat);
        let prev = placed(w, (k - 1) as nat);
        assert(cell_index(prev, w.position) == cell_index(w, w.position));
    }
}

/// Taking an item from a tile without items fails with `NoItemHere` and changes nothing.
pub proof fn lemma_remove_from_empty(w: WorldView)
    requires
        cell(w, w.position) == 0,
    ensures
        action_spec(w, Action::RemoveItem) == (w, Err::<(), ActionError>(ActionError::NoItemHere)),
{
}

/// Moving toward a wall fails with `MoveWall` and leaves the robot where it was.
pub proof fn lemma_move_into_wall(w: WorldView)
    requires
        ahead(w) is Some,
        cell(w, ahead(w)->0) == -1,
    ensures
        action_spec(w, Action::Move) == (w, Err::<(), ActionError>(ActionError::MoveWall)),
        action_spec(w, Action::Move).0.position == w.position,
{
}


/// The decimal digit `d` as a character.
pub open spec fn digit_char(d: nat) -> char {
    ((d + 48) as u8) as char
}

/// The decimal notation of `n`, without leading zeros.
pub open spec fn decimal(n: nat) -> Seq<char>
    decreases n,
{
    if n < 10 {
        seq![digit_char(n)]
    } else {
        decimal(n / 10).push(digit_char(n % 10))
    }
}

pub open spec fn robot_glyph(d: Direction) -> char {
    match d {
        Direction::West => '◀',
        Direction::North => '▲',
        Direction::South => '▼',
        Direction::East => '▶',
    }
}

/// How a tile is drawn: the robot by its orientation, an empty tile as `.`, a
/// wall as `#`, a tile with items by their number, and any other value as `?`.
pub open spec fn tile_text(w: WorldView, c: (usize, usize)) -> Seq<char> {
    if w.position == c {
        seq![robot_glyph(w.orientation)]
    } else if cell(w, c) == 0 {
        seq!['.']
    } else if cell(w, c) == -1 {
        seq!['#']
    } else if cell(w, c) > 0 {
        decimal(cell(w, c) as nat)
    } else {
        seq!['?']
    }
}

/// The drawing of the first `n` tiles of row `i`.
pub open spec fn row_text(w: WorldView, i: usize, n: nat) -> Seq<char>
    decreases n,
{
    if n == 0 {
        Seq::empty()
    } else {
        row_text(w, i, (n - 1) as nat) + tile_text(w, (i, (n - 1) as usize))
    }
}

fn push_decimal(n: usize, out: &mut Vec<char>)
    ensures
        final(out)@ == old(out)@ + decimal(n as nat),
    decreases n,
{
    if n >= 10 {
        push_decimal(n / 10, out);
    }
    out.push(((n % 10) as u8 + 48) as char);
    assert(old(out)@ + decimal(n as nat) =~= final(out)@) by {
        if n >= 10 {
            assert(decimal(n as nat) == decimal((n / 10) as nat).push(digit_char((n % 10) as nat)));
        }
    }
}

/// The grid and the robot on it.
pub struct Karel {
    gamefield: Vec<isize>,
    karel_coordinates: (usize, usize),
    karel_orientation: Direction,
    configuration: Config,
}

impl View for Karel {
    type V = WorldView;

    closed spec fn view(&self) -> WorldView {
        WorldView {
            grid: self.gamefield@,
            position: self.karel_coordinates,
            orientation: self.karel_orientation,
            width: self.configuration.gamefield_width,
            height: self.configuration.gamefield_height,
            max_items: self.configuration.maximum_items_on_ground,
        }
    }
}

impl Karel {
    pub open spec fn wf(&self) -> bool {
        world_wf(self@)
    }

    /// An empty grid of the configured size, the robot at (0, 0) facing North.
    pub fn new(configuration: Config) -> (r: Karel)
        requires
            configuration.gamefield_width > 0,
            configuration.gamefield_height > 0,
            configuration.gamefield_width * configuration.gamefield_height <= usize::MAX,
        ensures
            r.wf(),
            r@.width == configuration.gamefield_width,
            r@.height == configuration.gamefield_height,
            r@.max_items == configuration.maximum_items_on_ground,
            r@.position == (0usize, 0usize),
            r@.orientation == Direction::North,
            forall|i: int| 0 <= i < r@.grid.len() ==> r@.grid[i] == 0,
    {
        let n: usize = configuration.gamefield_width * configuration.gamefield_height;
        let mut gamefield: Vec<isize> = Vec::with_capacity(n);
        let mut i: usize = 0;
        while i < n
            invariant
                i <= n,
                gamefield@.len() == i,
                forall|j: int| 0 <= j < i ==> gamefield@[j] == 0,
            decreases n - i,
        {
            gamefield.push(0);
            i += 1;
        }
        Karel {
            gamefield,
            karel_orientation: Direction::North,
            karel_coordinates: (0, 0),
            configuration,
        }
    }

    /// The value of a tile: -1 for a wall, otherwise its number of items.
    pub fn get_gamefield(&self, coords: (usize, usize)) -> (r: Result<isize, QueryError>)
        requires
            self.wf(),
        ensures
            r == get_spec(self@, coords),
    {
        if coords.0 < self.configuration.gamefield_width && coords.1
            < self.configuration.gamefield_height {
            proof {
                lemma_index_bound(self@.width, self@.height, coords.0, coords.1);
                assert(self.gamefield@.len() == self.gamefield.len());
            }
            let index: usize = self.configuration.gamefield_height * coords.0 + coords.1;
            Ok(self.gamefield[index])
        } else {
            Err(QueryError::OutOfBounds)
        }
    }

    /// Store a value on a tile.
    pub fn set_gamefield(&mut self, coords: (usize, usize), value: isize) -> (r: Result<
        (),
        QueryError,
    >)
        requires
            old(self).wf(),
        ensures
            final(self).wf(),
            final(self)@ == set_spec(old(self)@, coords, value),
            r == (if in_bounds(old(self)@, coords) {
                Ok(())
            } else {
                Err(QueryError::OutOfBounds)
            }),
    {
        if coords.0 < self.configuration.gamefield_width && coords.1
            < self.configuration.gamefield_height {
            proof {
                lemma_index_bound(self@.width, self@.height, coords.0, coords.1);
                assert(self.gamefield@.len() == self.gamefield.len());
            }
            let index: usize = self.configuration.gamefield_height * coords.0 + coords.1;
            self.gamefield.set(index, value);
            Ok(())
        } else {
            Err(QueryError::OutOfBounds)
        }
    }

    /// Build a wall on an empty tile, or remove the wall that stands there.
    pub fn toggle_wall(&mut self, coords: (usize, usize)) -> (r: Result<(), ToggleWallError>)
        requires
            old(self).wf(),
        ensures
            final(self).wf(),
            (final(self)@, r) == toggle_spec(old(self)@, coords),
    {
        match self.get_gamefield(coords) {
            Ok(number) => {
                if number > 0 {
                    return Err(ToggleWallError::ItemOnGround);
                }
                if self.karel_coordinates.0 == coords.0 && self.karel_coordinates.1 == coords.1 {
                    return Err(ToggleWallError::KarelIsHere);
                }
                if number == -1 {
                    let _ = self.set_gamefield(coords, 0);
                } else {
                    let _ = self.set_gamefield(coords, -1);
                }
                Ok(())
            },
            Err(_) => Err(ToggleWallError::OutOfBounds),
        }
    }

    /// The coordinate one step ahead of the robot, if it is on the grid.
    fn ahead(&self) -> (r: Option<(usize, usize)>)
        requires
            self.wf(),
        ensures
            r == ahead(self@),
    {
        let (row, col) = self.karel_coordinates;
        match self.karel_orientation {
            Direction::North => if col == 0 {
                None
            } else {
                Some((row, col - 1))
            },
            Direction::South => if col + 1 < self.configuration.gamefield_height {
                Some((row, col + 1))
            } else {
                None
            },
            Direction::West => if row + 1 < self.configuration.gamefield_width {
                Some((row + 1, col))
            } else {
                None
            },
            Direction::East => if row == 0 {
                None
            } else {
                Some((row - 1, col))
            },
        }
    }

    /// Answer a question about the robot's surroundings.
    pub fn query(&self, query: Query) -> (r: Result<bool, QueryError>)
        requires
            self.wf(),
        ensures
            r == query_spec(self@, query),
    {
        match query {
            Query::Direction(direction) => Ok(direction == self.karel_orientation),
            Query::ItemHere => match self.get_gamefield(self.karel_coordinates) {
                Ok(num) => Ok(num > 0),
                Err(e) => Err(e),
            },
            Query::WallInFrontOfMe => match self.ahead() {
                Some(c) => match self.get_gamefield(c) {
                    Ok(num) => Ok(num == -1),
                    Err(e) => Err(e),
                },
                None => Err(QueryError::OutOfBounds),
            },
        }
    }

    /// Perform an action. A failed action leaves the world as it was.
    pub fn action(&mut self, action: Action) -> (r: Result<(), ActionError>)
        requires
            old(self).wf(),
        ensures
            final(self).wf(),
            (final(self)@, r) == action_spec(old(self)@, action),
    {
        match action {
            Action::Move => match self.ahead() {
                None => Err(ActionError::MoveOutOfBounds),
                Some(c) => match self.get_gamefield(c) {
                    Ok(num) => {
                        if num == -1 {
                            Err(ActionError::MoveWall)
                        } else {
                            self.karel_coordinates = c;
                            Ok(())
                        }
                    },
                    Err(_) => Err(ActionError::MoveOutOfBounds),
                },
            },
            Action::PlaceItem => match self.get_gamefield(self.karel_coordinates) {
                Ok(number) => {
                    if number >= self.configuration.maximum_items_on_ground {
                        Err(ActionError::ExceedItemLimit)
                    } else {
                        let _ = self.set_gamefield(self.karel_coordinates, number + 1);
                        Ok(())
                    }
                },
                Err(_) => Err(ActionError::MoveOutOfBounds),
            },
            Action::RemoveItem => match self.get_gamefield(self.karel_coordinates) {
                Ok(number) => {
                    if number <= 0 {
                        Err(ActionError::NoItemHere)
                    } else {
                        let _ = self.set_gamefield(self.karel_coordinates, number - 1);
                        Ok(())
                    }
                },
                Err(_) => Err(ActionError::MoveOutOfBounds),
            },
            Action::TurnLeft => {
                self.karel_orientation =
                match self.karel_orientation {
                    Direction::North => Direction::West,
                    Direction::West => Direction::South,
                    Direction::South => Direction::East,
                    Direction::East => Direction::North,
                };
                Ok(())
            },
        }
    }

    /// The grid drawn row by row, one tile after the other; see `tile_text`.
    pub fn render(&self) -> (r: Vec<Vec<char>>)
        requires
            self.wf(),
        ensures
            r@.len() == self@.width,
            forall|i: int| 0 <= i < r@.len() ==> #[trigger] r@[i]@ == row_text(self@, i as usize, self@.height as nat),
    {
        let width = self.configuration.gamefield_width;
        let height = self.configuration.gamefield_height;
        let mut rows: Vec<Vec<char>> = Vec::new();
        let mut i: usize = 0;
        while i < width
            invariant
                self.wf(),
                width == self@.width,
                height == self@.height,
                i <= width,
                rows@.len() == i,
                forall|k: int| 0 <= k < i ==> #[trigger] rows@[k]@ == row_text(self@, k as usize, height as nat),
            decreases width - i,
        {
            let mut row: Vec<char> = Vec::new();
            let mut j: usize = 0;
            while j < height
                invariant
                    self.wf(),
                    width == self@.width,
                    height == self@.height,
                    i < width,
                    j <= height,
                    row@ == row_text(self@, i, j as nat),
                decreases height - j,
            {
                let ghost before = row@;
                if self.karel_coordinates.0 == i && self.karel_coordinates.1 == j {
                    let glyph = match self.karel_orientation {
                        Direction::West => '◀',
                        Direction::North => '▲',
                        Direction::South => '▼',
                        Direction::East => '▶',
                    };
                    row.push(glyph);
                } else {
                    let value = match self.get_gamefield((i, j)) {
                        Ok(v) => v,
                        Err(_) => 0,
                    };
                    if value == 0 {
                        row.push('.');
                    } else if value == -1 {
                        row.push('#');
                    } else if value > 0 {
                        push_decimal(value as usize, &mut row);
                    } else {
                        row.push('?');
                    }
                }
                assert(row@ =~= before + tile_text(self@, (i, j)));
                j += 1;
            }
            rows.push(row);
            i += 1;
        }
        rows
    }

    /// The grid in row-major order: the tile (row, column) is at
    /// `height * row + column`; -1 is a wall, any other value a number of items.
    pub fn read_gamemap(&self) -> (r: &Vec<isize>)
        ensures
            r@ == self@.grid,
    {
        &self.gamefield
    }

    /// The robot's coordinate and orientation.
    pub fn read_karel(&self) -> (r: (&(usize, usize), &Direction))
        ensures
            *r.0 == self@.position,
            *r.1 == self@.orientation,
    {
        (&self.karel_coordinates, &self.karel_orientation)
    }

    /// The configuration the world was made with.
    pub fn configuration(&self) -> (r: &Config)
        ensures
            r.gamefield_width == self@.width,
            r.gamefield_height == self@.height,
            r.maximum_items_on_ground == self@.max_items,
    {
        &self.configuration
    }
}

} // verus!
