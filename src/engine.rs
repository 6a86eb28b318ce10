use crate::geometry::{advance, in_grid, opposite_of, Direction};
use std::collections::{HashSet, VecDeque};
use vstd::arithmetic::div_mod::{lemma_fundamental_div_mod, lemma_fundamental_div_mod_converse};
use vstd::prelude::*;

verus! {

broadcast use vstd::std_specs::hash::group_hash_axioms;

/// How a cell is to be drawn.
#[derive(Debug, Clone, Copy, PartialEq, Eq, Structural)]
pub enum Role {
    Body,
    Food,
    Empty,
}

/// A request to the renderer: draw `cell` as `role`.
#[derive(Debug, Clone, Copy, PartialEq, Eq)]
pub struct Paint {
    pub cell: (usize, usize),
    pub role: Role,
}

/// Why a game ended.
#[derive(Debug, Clone, Copy, PartialEq, Eq, Structural)]
pub enum Ending {
    Died,
    Won,
}

/// What one step of the snake did.
#[derive(Debug, Clone, Copy, PartialEq, Eq, Structural)]
pub enum Outcome {
    /// The head moved to a free cell and the tail followed.
    Moved,
    /// The head moved onto the food; the body grew and new food was placed.
    Grew,
    /// The head would have entered the body; nothing moved.
    Died,
    /// The head took the last free cell.
    Won,
}

/// The abstract state of a game.
pub struct GameView {
    pub size: (usize, usize),
    /// The body, head first.
    pub snake: Seq<(usize, usize)>,
    /// The cells of the grid that the body does not cover.
    pub free: Set<(usize, usize)>,
    pub direction: Direction,
    pub food: (usize, usize),
    pub paused: bool,
    pub ending: Option<Ending>,
    /// Every paint request issued so far and not yet taken by the renderer.
    pub paints: Seq<Paint>,
}

/// The position of a cell when the grid is read row by row.
spec fn cell_key(size: (usize, usize), c: (usize, usize)) -> int {
    c.1 as int * size.0 as int + c.0 as int
}

/// The cells whose keys lie in `keys`.
spec fn cells_of_keys(size: (usize, usize), keys: Set<usize>) -> Set<(usize, usize)> {
    Set::new(|c: (usize, usize)| in_grid(size, c) && keys.contains(cell_key(size, c) as usize))
}

impl GameView {
    pub open spec fn head(&self) -> (usize, usize) {
        self.snake[0]
    }

    pub open spec fn tail(&self) -> (usize, usize) {
        self.snake.last()
    }

    /// Where the head goes on the next step.
    pub open spec fn next_head(&self) -> (usize, usize) {
        advance(self.size, self.head(), self.direction)
    }

    /// Everything that holds of a game, except where its food lies.
    pub open spec fn layout_inv(&self) -> bool {
        &&& self.size.0 >= 2
        &&& self.size.1 >= 2
        &&& self.size.0 * self.size.1 <= usize::MAX
        &&& self.snake.len() >= 2
        &&& self.snake.no_duplicates()
        &&& forall|i: int| 0 <= i < self.snake.len() ==> in_grid(self.size, #[trigger] self.snake[i])
        &&& forall|c: (usize, usize)| #[trigger]
            self.free.contains(c) <==> (in_grid(self.size, c) && !self.snake.contains(c))
    }

    /// The free cells and the body partition the grid, the body has distinct
    /// cells, and until the game is won the food lies on a free cell.
    pub open spec fn inv(&self) -> bool {
        &&& self.layout_inv()
        &&& self.ending != Some(Ending::Won) ==> self.free.contains(self.food)
    }

    /// This state with its ending set, nothing else changed.
    pub open spec fn ended(&self, e: Ending) -> GameView {
        GameView { ending: Some(e), ..*self }
    }
}

/// One step of a running game, from `pre` to `post`, reporting `out`.
///
/// The next head is computed from the head and the current direction. If it is
/// a cell of the body (the tail included) the snake dies and nothing moves. If
/// it is the food the body grows by the new head; when no free cell is left the
/// game is won, otherwise new food lies on a free cell. Otherwise the head moves
/// and the tail cell becomes free. Each change is sent to the renderer.
pub open spec fn step_relation(pre: GameView, post: GameView, out: Outcome) -> bool {
    let next = pre.next_head();
    let body = Paint { cell: next, role: Role::Body };
    if pre.snake.contains(next) {
        out == Outcome::Died && post == pre.ended(Ending::Died)
    } else if next == pre.food {
        &&& post.size == pre.size
        &&& post.direction == pre.direction
        &&& post.paused == pre.paused
        &&& post.snake == seq![next] + pre.snake
        &&& post.free == pre.free.remove(next)
        &&& if post.free.is_empty() {
            &&& out == Outcome::Won
            &&& post.ending == Some(Ending::Won)
            &&& post.food == pre.food
            &&& post.paints == pre.paints.push(body)
        } else {
            &&& out == Outcome::Grew
            &&& post.ending == pre.ending
            &&& post.free.contains(post.food)
            &&& post.paints == pre.paints.push(body).push(
                (Paint { cell: post.food, role: Role::Food }),
            )
        }
    } else {
        &&& out == Outcome::Moved
        &&& post.size == pre.size
        &&& post.direction == pre.direction
        &&& post.paused == pre.paused
        &&& post.ending == pre.ending
        &&& post.food == pre.food
        &&& post.snake == seq![next] + pre.snake.drop_last()
        &&& post.free == pre.free.remove(next).insert(pre.tail())
        &&& post.paints == pre.paints.push(body).push(
            (Paint { cell: pre.tail(), role: Role::Empty }),
        )
    }
}

proof fn lemma_key_bound(size: (usize, usize), c: (usize, usize))
    requires
        in_grid(size, c),
        size.0 * size.1 <= usize::MAX,
    ensures
        0 <= cell_key(size, c) < size.0 * size.1,
        cell_key(size, c) <= usize::MAX,
{
    let w = size.0 as int;
    let h = size.1 as int;
    let x = c.0 as int;
    let y = c.1 as int;
    assert(0 <= y * w + x < w * h) by (nonlinear_arith)
        requires
            0 <= x < w,
            0 <= y < h,
    ;
}

proof fn lemma_key_injective(size: (usize, usize), c: (usize, usize), d: (usize, usize))
    requires
        in_grid(size, c),
        in_grid(size, d),
        cell_key(size, c) == cell_key(size, d),
    ensures
        c == d,
{
    let k = cell_key(size, c);
    lemma_fundamental_div_mod_converse(k, size.0 as int, c.1 as int, c.0 as int);
    lemma_fundamental_div_mod_converse(k, size.0 as int, d.1 as int, d.0 as int);
}

/// The cell whose key is `k`.
spec fn cell_of_key(size: (usize, usize), k: usize) -> (usize, usize) {
    ((k % size.0) as usize, (k / size.0) as usize)
}

proof fn lemma_key_decode(size: (usize, usize), k: usize)
    requires
        size.0 > 0,
        k < size.0 * size.1,
    ensures
        in_grid(size, cell_of_key(size, k)),
        cell_key(size, cell_of_key(size, k)) == k,
{
    let w = size.0 as int;
    let h = size.1 as int;
    let q = k as int / w;
    let r = k as int % w;
    lemma_fundamental_div_mod(k as int, w);
    assert(k == q * w + r) by (nonlinear_arith)
        requires
            k == w * q + r,
    ;
    assert(q < h) by (nonlinear_arith)
        requires
            k == w * q + r,
            0 <= r,
            k < w * h,
            w > 0,
    ;
    assert(0 <= q) by (nonlinear_arith)
        requires
            k == w * q + r,
            r < w,
            k >= 0,
            w > 0,
    ;
}

proof fn lemma_cells_remove(size: (usize, usize), keys: Set<usize>, c: (usize, usize))
    requires
        in_grid(size, c),
        size.0 * size.1 <= usize::MAX,
    ensures
        cells_of_keys(size, keys.remove(cell_key(size, c) as usize)) == cells_of_keys(
            size,
            keys,
        ).remove(c),
{
    lemma_key_bound(size, c);
    assert forall|d: (usize, usize)|
        #[trigger] cells_of_keys(size, keys.remove(cell_key(size, c) as usize)).contains(d)
            <==> cells_of_keys(size, keys).remove(c).contains(d) by {
        if in_grid(size, d) {
            lemma_key_bound(size, d);
            if cell_key(size, d) == cell_key(size, c) {
                lemma_key_injective(size, c, d);
            }
        }
    }
    assert(cells_of_keys(size, keys.remove(cell_key(size, c) as usize)) =~= cells_of_keys(
        size,
        keys,
    ).remove(c));
}

proof fn lemma_cells_insert(size: (usize, usize), keys: Set<usize>, c: (usize, usize))
    requires
        in_grid(size, c),
        size.0 * size.1 <= usize::MAX,
    ensures
        cells_of_keys(size, keys.insert(cell_key(size, c) as usize)) == cells_of_keys(
            size,
            keys,
        ).insert(c),
{
    lemma_key_bound(size, c);
    assert forall|d: (usize, usize)|
        #[trigger] cells_of_keys(size, keys.insert(cell_key(size, c) as usize)).contains(d)
            <==> cells_of_keys(size, keys).insert(c).contains(d) by {
        if in_grid(size, d) {
            lemma_key_bound(size, d);
            if cell_key(size, d) == cell_key(size, c) {
                lemma_key_injective(size, c, d);
            }
        }
    }
    assert(cells_of_keys(size, keys.insert(cell_key(size, c) as usize)) =~= cells_of_keys(
        size,
        keys,
    ).insert(c));
}

/// With every key on the grid, the set of keys is empty exactly when no cell is.
proof fn lemma_cells_empty(size: (usize, usize), keys: Set<usize>)
    requires
        size.0 > 0,
        forall|k: usize| #[trigger] keys.contains(k) ==> k < size.0 * size.1,
    ensures
        keys.is_empty() <==> cells_of_keys(size, keys).is_empty(),
{
    if !keys.is_empty() {
        let k = keys.choose();
        lemma_key_decode(size, k);
        assert(cells_of_keys(size, keys).contains(cell_of_key(size, k)));
    }
    if !cells_of_keys(size, keys).is_empty() {
        let c = cells_of_keys(size, keys).choose();
        assert(keys.contains(cell_key(size, c) as usize));
    }
}

/// A step that moves without growing keeps the body's length; the free cells
/// lose exactly the new head cell and gain exactly the vacated tail cell.
pub proof fn lemma_plain_step(pre: GameView, post: GameView, out: Outcome)
    requires
        pre.inv(),
        pre.ending is None,
        step_relation(pre, post, out),
        out == Outcome::Moved,
    ensures
        post.snake.len() == pre.snake.len(),
        pre.free.contains(pre.next_head()),
        !pre.free.contains(pre.tail()),
        post.free == pre.free.remove(pre.next_head()).insert(pre.tail()),
{
    assert(pre.snake[pre.snake.len() - 1] == pre.tail());
}

/// A step onto the food lengthens the body by one, and unless it takes the last
/// free cell the new food lies on a free cell, never on the body.
pub proof fn lemma_growing_step(pre: GameView, post: GameView, out: Outcome)
    requires
        pre.inv(),
        pre.ending is None,
        step_relation(pre, post, out),
        out == Outcome::Grew,
    ensures
        post.snake.len() == pre.snake.len() + 1,
        post.free == pre.free.remove(pre.next_head()),
        post.free.contains(post.food),
        !post.snake.contains(post.food),
{
    if post.snake.contains(post.food) {
        let j = choose|j: int| 0 <= j < post.snake.len() && post.snake[j] == post.food;
        if j > 0 {
            assert(pre.snake[j - 1] == post.food);
        }
    }
}

/// A step whose next head is a cell of the body ends the game as lost and
/// changes nothing else.
pub proof fn lemma_collision_dies(pre: GameView, post: GameView, out: Outcome)
    requires
        pre.inv(),
        pre.snake.contains(pre.next_head()),
        step_relation(pre, post, out),
    ensures
        out == Outcome::Died,
        post == pre.ended(Ending::Died),
{
}

/// With a single free cell left, stepping onto it wins the game and leaves no
/// free cell.
pub proof fn lemma_last_free_cell_wins(pre: GameView, post: GameView, out: Outcome, c: (usize, usize))
    requires
        pre.inv(),
        pre.ending is None,
        pre.free == set![c],
        pre.next_head() == c,
        step_relation(pre, post, out),
    ensures
        out == Outcome::Won,
        post.ending == Some(Ending::Won),
        post.free.is_empty(),
{
    assert(pre.free.contains(c));
    assert(pre.free.remove(c) =~= Set::empty());
}

/// The game state engine: the snake's body, the free cells, the direction, the
/// food and the pause flag, with the paint requests that its changes produce.
pub struct Game {
    size: (usize, usize),
    snake: VecDeque<(usize, usize)>,
    empty_cells: HashSet<usize>,
    snake_direction: Direction,
    food: (usize, usize),
    paused: bool,
    ending: Option<Ending>,
    paints: Vec<Paint>,
}

impl View for Game {
    type V = GameView;

    closed spec fn view(&self) -> GameView {
        GameView {
            size: self.size,
            snake: self.snake@,
            free: cells_of_keys(self.size, self.empty_cells@),
            direction: self.snake_direction,
            food: self.food,
            paused: self.paused,
            ending: self.ending,
            paints: self.paints@,
        }
    }
}

/// Relies on rand's `IteratorRandom::choose`, drawing with the thread-local
/// generator: it returns one of the iterated keys, and `None` if and only if
/// there is none.
#[verifier::external_body]
fn choose_key(keys: &HashSet<usize>) -> (r: Option<usize>)
    ensures
        r is None <==> keys@.is_empty(),
        r matches Some(k) ==> keys@.contains(k),
{
    rand::seq::IteratorRandom::choose(keys.iter(), &mut rand::thread_rng()).copied()
}

impl Game {
    /// The representation's own invariant: every stored key names a cell.
    pub closed spec fn keys_on_grid(&self) -> bool {
        forall|k: usize| #[trigger] self.empty_cells@.contains(k) ==> k < self.size.0 * self.size.1
    }

    pub open spec fn wf(&self) -> bool {
        self@.inv() && self.keys_on_grid()
    }

    fn key_of(&self, cell: (usize, usize)) -> (r: usize)
        requires
            in_grid(self.size, cell),
            self.size.0 * self.size.1 <= usize::MAX,
        ensures
            r == cell_key(self.size, cell),
            r < self.size.0 * self.size.1,
    {
        proof {
            lemma_key_bound(self.size, cell);
        }
        cell.1 * self.size.0 + cell.0
    }

    /// A new game on a grid of `size` = (width, height): a body of two cells,
    /// the head at the centre and the tail just below it, heading up, with food
    /// on one of the free cells.
    pub fn new(size: (usize, usize)) -> (r: Game)
        requires
            size.0 >= 2,
            size.1 >= 2,
            size.0 * size.1 <= usize::MAX,
        ensures
            r.wf(),
            r@.size == size,
            r@.snake == seq![
                (size.0 / 2, size.1 / 2),
                advance(size, (size.0 / 2, size.1 / 2), Direction::Down),
            ],
            r@.direction == Direction::Up,
            !r@.paused,
            r@.ending is None,
            r@.paints == seq![
                Paint { cell: r@.snake[0], role: Role::Body },
                Paint { cell: r@.snake[1], role: Role::Body },
                Paint { cell: r@.food, role: Role::Food },
            ],
    {
        let head = (size.0 / 2, size.1 / 2);
        let tail = Direction::Down.move_point(size, head);
        let mut snake: VecDeque<(usize, usize)> = VecDeque::new();
        snake.push_back(head);
        snake.push_back(tail);
        let n = size.0 * size.1;
        proof {
            lemma_key_bound(size, head);
            lemma_key_bound(size, tail);
        }
        let head_key = head.1 * size.0 + head.0;
        let tail_key = tail.1 * size.0 + tail.0;
        let mut empty_cells: HashSet<usize> = HashSet::new();
        let mut i: usize = 0;
        while i < n
            invariant
                i <= n,
                forall|k: usize| #[trigger]
                    empty_cells@.contains(k) <==> (k < i && k != head_key && k != tail_key),
            decreases n - i,
        {
            if i != head_key && i != tail_key {
                empty_cells.insert(i);
            }
            i += 1;
        }
        let mut paints: Vec<Paint> = Vec::new();
        paints.push(Paint { cell: head, role: Role::Body });
        paints.push(Paint { cell: tail, role: Role::Body });
        let mut game = Game {
            size,
            snake,
            empty_cells,
            snake_direction: Direction::Up,
            food: head,
            paused: false,
            ending: None,
            paints,
        };
        proof {
            let v = game@;
            assert(v.snake =~= seq![head, tail]);
            assert(head != tail);
            assert(v.snake.no_duplicates());
            assert(forall|i: int| 0 <= i < v.snake.len() ==> in_grid(size, #[trigger] v.snake[i]));
            assert forall|c: (usize, usize)| #[trigger]
                v.free.contains(c) <==> (in_grid(size, c) && !v.snake.contains(c)) by {
                if in_grid(size, c) {
                    lemma_key_bound(size, c);
                    if cell_key(size, c) == head_key {
                        lemma_key_injective(size, c, head);
                    }
                    if cell_key(size, c) == tail_key {
                        lemma_key_injective(size, c, tail);
                    }
                    assert(v.snake.contains(c) <==> (c == head || c == tail)) by {
                        if c == tail {
                            assert(v.snake[1] == c);
                        }
                    }
                }
            }
            // a grid of at least four cells keeps two of them free
            let spare = if head_key == 0 || tail_key == 0 {
                if head_key == 1 || tail_key == 1 { 2usize } else { 1usize }
            } else {
                0usize
            };
            assert(spare < n) by (nonlinear_arith)
                requires
                    n == size.0 * size.1,
                    size.0 >= 2,
                    size.1 >= 2,
                    spare <= 2,
            ;
            lemma_key_decode(size, spare);
            assert(v.free.contains(cell_of_key(size, spare)));
        }
        game.gen_food();
        game
    }

    /// Places the food on a free cell drawn at random.
    fn gen_food(&mut self)
        requires
            old(self)@.layout_inv(),
            old(self).keys_on_grid(),
            !old(self)@.free.is_empty(),
        ensures
            final(self).keys_on_grid(),
            final(self)@ == (GameView {
                food: final(self)@.food,
                paints: old(self)@.paints.push(
                    (Paint { cell: final(self)@.food, role: Role::Food }),
                ),
                ..old(self)@
            }),
            final(self)@.free.contains(final(self)@.food),
    {
        proof {
            lemma_cells_empty(self.size, self.empty_cells@);
        }
        let k = choose_key(&self.empty_cells).unwrap();
        proof {
            lemma_key_decode(self.size, k);
        }
        let cell = (k % self.size.0, k / self.size.0);
        self.set_food(cell);
    }

    fn set_food(&mut self, cell: (usize, usize))
        ensures
            final(self).keys_on_grid() == old(self).keys_on_grid(),
            final(self)@ == (GameView {
                food: cell,
                paints: old(self)@.paints.push((Paint { cell, role: Role::Food })),
                ..old(self)@
            }),
    {
        self.food = cell;
        self.paints.push(Paint { cell, role: Role::Food });
    }

    fn push_snake_head(&mut self, cell: (usize, usize))
        requires
            in_grid(old(self).size, cell),
            old(self).size.0 * old(self).size.1 <= usize::MAX,
            old(self).keys_on_grid(),
        ensures
            final(self).keys_on_grid(),
            final(self)@ == (GameView {
                snake: seq![cell] + old(self)@.snake,
                free: old(self)@.free.remove(cell),
                paints: old(self)@.paints.push((Paint { cell, role: Role::Body })),
                ..old(self)@
            }),
    {
        self.snake.push_front(cell);
        self.paints.push(Paint { cell, role: Role::Body });
        let k = self.key_of(cell);
        self.empty_cells.remove(&k);
        proof {
            lemma_cells_remove(self.size, old(self).empty_cells@, cell);
        }
    }

    fn pop_snake_tail(&mut self)
        requires
            old(self)@.snake.len() > 0,
            in_grid(old(self).size, old(self)@.tail()),
            old(self).size.0 * old(self).size.1 <= usize::MAX,
            old(self).keys_on_grid(),
        ensures
            final(self).keys_on_grid(),
            final(self)@ == (GameView {
                snake: old(self)@.snake.drop_last(),
                free: old(self)@.free.insert(old(self)@.tail()),
                paints: old(self)@.paints.push(
                    (Paint { cell: old(self)@.tail(), role: Role::Empty }),
                ),
                ..old(self)@
            }),
    {
        let tail = self.snake.pop_back().unwrap();
        self.paints.push(Paint { cell: tail, role: Role::Empty });
        let k = self.key_of(tail);
        self.empty_cells.insert(k);
        proof {
            lemma_cells_insert(self.size, old(self).empty_cells@, tail);
            assert(self.snake@ =~= old(self)@.snake.drop_last());
        }
    }

    /// Whether `cell` is a cell of the body.
    fn body_contains(&self, cell: (usize, usize)) -> (r: bool)
        ensures
            r == self@.snake.contains(cell),
    {
        let n = self.snake.len();
        let mut i: usize = 0;
        while i < n
            invariant
                n == self@.snake.len(),
                i <= n,
                forall|j: int| 0 <= j < i ==> self@.snake[j] != cell,
            decreases n - i,
        {
            let c = self.snake[i];
            if c.0 == cell.0 && c.1 == cell.1 {
                assert(self@.snake[i as int] == cell);
                return true;
            }
            i += 1;
        }
        false
    }

    /// Turns the snake to `dir` unless `dir` is the opposite of the current
    /// direction, which is refused; reports whether the turn was taken.
    pub fn set_direction(&mut self, dir: Direction) -> (accepted: bool)
        ensures
            accepted == (dir != opposite_of(old(self)@.direction)),
            final(self)@ == (GameView {
                direction: if accepted { dir } else { old(self)@.direction },
                ..old(self)@
            }),
            old(self).wf() ==> final(self).wf(),
    {
        if dir != self.snake_direction.opposite() {
            self.snake_direction = dir;
            true
        } else {
            false
        }
    }

    /// Moves the snake one cell in its current direction; see `step_relation`
    /// for what each outcome does to the state.
    pub fn make_step(&mut self) -> (r: Outcome)
        requires
            old(self).wf(),
            old(self)@.ending is None,
        ensures
            final(self).wf(),
            step_relation(old(self)@, final(self)@, r),
    {
        let ghost pre = self@;
        let head = self.snake[0];
        let next = self.snake_direction.move_point(self.size, head);
        if self.body_contains(next) {
            self.ending = Some(Ending::Died);
            return Outcome::Died;
        }
        self.push_snake_head(next);
        proof {
            let v = self@;
            assert forall|c: (usize, usize)|
                #[trigger] v.snake.contains(c) <==> (c == next || pre.snake.contains(c)) by {
                if pre.snake.contains(c) {
                    let j = choose|j: int| 0 <= j < pre.snake.len() && pre.snake[j] == c;
                    assert(v.snake[j + 1] == c);
                }
                if v.snake.contains(c) && c != next {
                    let j = choose|j: int| 0 <= j < v.snake.len() && v.snake[j] == c;
                    assert(pre.snake[j - 1] == c);
                }
                if c == next {
                    assert(v.snake[0] == c);
                }
            }
            assert forall|i: int| 0 <= i < v.snake.len() implies in_grid(v.size, #[trigger] v.snake[i]) by {
                if i > 0 {
                    assert(v.snake[i] == pre.snake[i - 1]);
                }
            }
            assert forall|i: int, j: int|
                0 <= i < v.snake.len() && 0 <= j < v.snake.len() && i != j
                implies #[trigger] v.snake[i] != #[trigger] v.snake[j] by {
                if i > 0 && j > 0 {
                    assert(v.snake[i] == pre.snake[i - 1]);
                    assert(v.snake[j] == pre.snake[j - 1]);
                } else if i == 0 {
                    assert(v.snake[j] == pre.snake[j - 1]);
                } else {
                    assert(v.snake[i] == pre.snake[i - 1]);
                }
            }
            assert(v.layout_inv());
        }
        if next.0 == self.food.0 && next.1 == self.food.1 {
            proof {
                lemma_cells_empty(self.size, self.empty_cells@);
            }
            if self.empty_cells.is_empty() {
                self.ending = Some(Ending::Won);
                return Outcome::Won;
            }
            self.gen_food();
            Outcome::Grew
        } else {
            let ghost mid = self@;
            proof {
                assert(mid.tail() == pre.tail());
                assert(in_grid(mid.size, mid.tail()));
            }
            self.pop_snake_tail();
            proof {
                let v = self@;
                assert(v.snake =~= seq![next] + pre.snake.drop_last());
                let tail = pre.tail();
                assert forall|c: (usize, usize)|
                    #[trigger] pre.snake.drop_last().contains(c) <==> (pre.snake.contains(c) && c != tail) by {
                    let d = pre.snake.drop_last();
                    let last = pre.snake.len() - 1;
                    if pre.snake.contains(c) && c != tail {
                        let j = choose|j: int| 0 <= j < pre.snake.len() && pre.snake[j] == c;
                        assert(j != last);
                        assert(d[j] == c);
                    }
                    if d.contains(c) {
                        let j = choose|j: int| 0 <= j < d.len() && d[j] == c;
                        assert(pre.snake[j] == c);
                        assert(pre.snake[last] == tail);
                    }
                }
                assert forall|c: (usize, usize)|
                    #[trigger] v.snake.contains(c) <==> (c == next || (pre.snake.contains(c) && c != tail)) by {
                    if pre.snake.drop_last().contains(c) {
                        let j = choose|j: int| 0 <= j < pre.snake.drop_last().len() && pre.snake.drop_last()[j] == c;
                        assert(v.snake[j + 1] == c);
                    }
                    if v.snake.contains(c) && c != next {
                        let j = choose|j: int| 0 <= j < v.snake.len() && v.snake[j] == c;
                        assert(pre.snake.drop_last()[j - 1] == c);
                    }
                    if c == next {
                        assert(v.snake[0] == c);
                    }
                }
                assert(pre.snake.contains(tail)) by {
                    assert(pre.snake[pre.snake.len() - 1] == tail);
                }
                assert forall|i: int| 0 <= i < v.snake.len() implies in_grid(v.size, #[trigger] v.snake[i]) by {
                    if i > 0 {
                        assert(v.snake[i] == pre.snake[i - 1]);
                    }
                }
                assert forall|i: int, j: int|
                    0 <= i < v.snake.len() && 0 <= j < v.snake.len() && i != j
                    implies #[trigger] v.snake[i] != #[trigger] v.snake[j] by {
                    if i > 0 && j > 0 {
                        assert(v.snake[i] == pre.snake[i - 1]);
                        assert(v.snake[j] == pre.snake[j - 1]);
                    } else if i == 0 {
                        assert(v.snake[j] == pre.snake[j - 1]);
                    } else {
                        assert(v.snake[i] == pre.snake[i - 1]);
                    }
                }
                assert(v.layout_inv());
            }
            Outcome::Moved
        }
    }

    /// Moves the food to `cell` when `cell` is free, and reports whether it did;
    /// otherwise nothing changes. The old food cell is cleared on screen.
    pub fn place_food(&mut self, cell: (usize, usize)) -> (placed: bool)
        requires
            old(self).wf(),
            old(self)@.ending is None,
        ensures
            final(self).wf(),
            placed == old(self)@.free.contains(cell),
            placed ==> final(self)@ == (GameView {
                food: cell,
                paints: old(self)@.paints.push(
                    (Paint { cell: old(self)@.food, role: Role::Empty }),
                ).push((Paint { cell, role: Role::Food })),
                ..old(self)@
            }),
            !placed ==> final(self)@ == old(self)@,
    {
        if cell.0 >= self.size.0 || cell.1 >= self.size.1 {
            return false;
        }
        let k = self.key_of(cell);
        if !self.empty_cells.contains(&k) {
            return false;
        }
        let old_food = self.food;
        self.paints.push(Paint { cell: old_food, role: Role::Empty });
        self.set_food(cell);
        true
    }

    /// Flips the pause flag and returns its new value.
    pub fn toggle_paused(&mut self) -> (paused: bool)
        ensures
            paused == !old(self)@.paused,
            final(self)@ == (GameView { paused, ..old(self)@ }),
            old(self).wf() ==> final(self).wf(),
    {
        self.paused = !self.paused;
        self.paused
    }

    /// Hands over the paint requests issued so far, oldest first, and forgets them.
    pub fn take_paints(&mut self) -> (r: Vec<Paint>)
        ensures
            r@ == old(self)@.paints,
            final(self)@ == (GameView { paints: Seq::empty(), ..old(self)@ }),
            old(self).wf() ==> final(self).wf(),
    {
        let mut r: Vec<Paint> = Vec::new();
        std::mem::swap(&mut r, &mut self.paints);
        proof {
            assert(self.paints@ =~= Seq::<Paint>::empty());
        }
        r
    }

    pub fn size(&self) -> (r: (usize, usize))
        ensures
            r == self@.size,
    {
        self.size
    }

    /// The body's cells, head first.
    pub fn snake(&self) -> (r: Vec<(usize, usize)>)
        ensures
            r@ == self@.snake,
    {
        let n = self.snake.len();
        let mut r: Vec<(usize, usize)> = Vec::new();
        let mut i: usize = 0;
        while i < n
            invariant
                n == self@.snake.len(),
                i <= n,
                r@ == self@.snake.take(i as int),
            decreases n - i,
        {
            r.push(self.snake[i]);
            i += 1;
            proof {
                assert(r@ =~= self@.snake.take(i as int));
            }
        }
        proof {
            assert(r@ =~= self@.snake);
        }
        r
    }

    pub fn food(&self) -> (r: (usize, usize))
        ensures
            r == self@.food,
    {
        self.food
    }

    pub fn direction(&self) -> (r: Direction)
        ensures
            r == self@.direction,
    {
        self.snake_direction
    }

    pub fn is_paused(&self) -> (r: bool)
        ensures
            r == self@.paused,
    {
        self.paused
    }

    pub fn ending(&self) -> (r: Option<Ending>)
        ensures
            r == self@.ending,
    {
        self.ending
    }

    /// Whether `cell` is a free cell of the grid.
    pub fn is_free(&self, cell: (usize, usize)) -> (r: bool)
        requires
            self.wf(),
        ensures
            r == self@.free.contains(cell),
    {
        if cell.0 >= self.size.0 || cell.1 >= self.size.1 {
            return false;
        }
        let k = self.key_of(cell);
        self.empty_cells.contains(&k)
    }

}

} // verus!
