# routee_compass_core

Core route-search logic for road networks, written in Verus: the executable code
carries `requires`/`ensures` contracts and Verus proves the code against them.

## Layout

- `src/` — the verified library.
  - `network.rs`: the road network graph (vertices, edge lists, adjacency).
  - `label.rs`, `cost.rs`: search labels, costs and state variables.
  - `priority_queue.rs`: the search frontier, a priority queue keyed by label.
  - `reachability.rs`: walks and reachability in the graph.
  - `component.rs`: depth-first searches and strongly connected components
    (Kosaraju's algorithm, proved to return exactly the components).
  - `model/`: the models a search consults (state, cost, traversal, constraint,
    label, termination, access, frontier, filter, spatial index answers).
  - `search/`: the search tree and its laws, edge traversals, A* (vertex- and
    edge-oriented; proved to record least costs where every edge adds a fixed
    cost and the estimates never overestimate), backtracking, the configured search algorithms and the
    k-shortest-paths searches (single via paths, Yen's).
  - `map_matching/`: nearest-edge map matching, edge paths between matched
    edges, joining of segment paths, and handling of stationary trace points.
  - `config/`: configuration fields and keys, and typed lookups in a JSON
    configuration.
  - `text.rs`: decimal renderings of integers, for the descriptions of
    termination criteria and edge traversals.
- `tests/` — tests of the library, run against the compiled crate.
- `app/` — what stays outside the verified library: the serde and thiserror forms
  of the library's types, configuration file-path normalization (file system),
  the floating-point route similarity functions, and the HMM and LCSS map matchers,
  whose scoring is floating point and which call the library for graph routes.

## Checking

Verus verifies `src/`; the tests run with the outside crates linked. Integer units
stand for physical quantities throughout the library (distances, costs, state).
