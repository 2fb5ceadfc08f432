# opv_schaltungen

A web application that simulates operational-amplifier circuits (integrator,
differentiator, low pass, high pass, PD element) fed with test signals, and draws
their time response and Bode diagram.

- `src/` is the verified library (Verus): the circuit and signal catalogues
  (`circuits`, `signals`, `backend`, `circuit_data`), the reading of the values
  entered in the forms (`form`, `circuit_data`), the number-text grammar and other
  text helpers (`text`), the texts of the diagram labels (`plot`) and the error
  messages (`errors`).
- `app/` is the Leptos front end and everything that computes with floating point
  numbers: the circuit and signal models, the simulation and the drawing with
  plotters on a canvas.
- `tests/` exercises the library on concrete values.
