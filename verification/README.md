# queue_sim

A desktop tool for simulation exercises: a linear congruential generator, a
middle-square generator, and a single- or multi-server queue fed by tables of
interarrival and service probabilities.

- `src/` is the verified library: sizing of the tables (`grid`), the headings of the
  table of customers (`headings`), intervals of random numbers and their lookup
  (`intervals`), the layout of a shown table (`display`), the choice of server and the
  table's server columns (`queue`), and the kinds of tab (`tabs`).
- `app/` is the egui program around it: the windows and widgets, and the arithmetic on
  `f32` values (generators, running sums, clocks and waiting times).
- `tests/` runs the library on concrete tables.
